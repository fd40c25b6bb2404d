//! The commands of the protocol: reading them from frames and writing them as frames.

use vstd::prelude::*;
use vstd::utf8::*;

use crate::db::{Store, expiry_at, value_of};
use crate::frame::{Frame, FrameModel};
use crate::parse::{Parse, ParseError, bytes_of, int_of, string_of};
use crate::text::{
    decimal, lower_of, lowercase, same_text, text_bytes, upper_of, uppercase, write_decimal,
};

verus! {

/// The value of a command.
pub enum CommandModel {
    Get { key: Seq<char> },
    SetCmd { key: Seq<char>, value: Seq<u8>, expire: Option<u64> },
    Publish { channel: Seq<char>, message: Seq<u8> },
    Subscribe { channels: Seq<Seq<char>> },
    Unsubscribe { channels: Seq<Seq<char>> },
    Ping { msg: Option<Seq<u8>> },
    Unknown { name: Seq<char> },
}

pub open spec fn texts_view(v: Seq<String>) -> Seq<Seq<char>> {
    v.map_values(|s: String| s@)
}

/// The next item as text, with the items after it.
pub open spec fn read_string(args: Seq<FrameModel>) -> Result<(Seq<char>, Seq<FrameModel>), ParseError> {
    if args.len() == 0 {
        Err(ParseError::EndOfStream)
    } else {
        match string_of(args[0]) {
            Ok(s) => Ok((s, args.drop_first())),
            Err(e) => Err(e),
        }
    }
}

/// The next item as bytes, with the items after it.
pub open spec fn read_bytes(args: Seq<FrameModel>) -> Result<(Seq<u8>, Seq<FrameModel>), ParseError> {
    if args.len() == 0 {
        Err(ParseError::EndOfStream)
    } else {
        match bytes_of(args[0]) {
            Ok(b) => Ok((b, args.drop_first())),
            Err(e) => Err(e),
        }
    }
}

/// The next item as a number, with the items after it.
pub open spec fn read_int(args: Seq<FrameModel>) -> Result<(u64, Seq<FrameModel>), ParseError> {
    if args.len() == 0 {
        Err(ParseError::EndOfStream)
    } else {
        match int_of(args[0]) {
            Ok(n) => Ok((n, args.drop_first())),
            Err(e) => Err(e),
        }
    }
}

/// Every item as text; the first failure if one is not.
pub open spec fn read_strings(args: Seq<FrameModel>) -> Result<Seq<Seq<char>>, ParseError>
    decreases args.len(),
{
    if args.len() == 0 {
        Ok(Seq::empty())
    } else {
        match string_of(args[0]) {
            Err(e) => Err(e),
            Ok(s) => match read_strings(args.drop_first()) {
                Err(e) => Err(e),
                Ok(t) => Ok(seq![s] + t),
            },
        }
    }
}

/// The expiry, in milliseconds, that the `SET` option `option` (upper case)
/// and the items after it give.
pub open spec fn read_expire(option: Seq<char>, args: Seq<FrameModel>) -> Result<
    (Option<u64>, Seq<FrameModel>),
    ParseError,
> {
    if option == "EX"@ {
        match read_int(args) {
            Err(e) => Err(e),
            Ok((secs, rest)) => if secs * 1000 <= u64::MAX {
                Ok((Some((secs * 1000) as u64), rest))
            } else {
                Err(ParseError::InvalidNumber)
            },
        }
    } else if option == "PX"@ {
        match read_int(args) {
            Err(e) => Err(e),
            Ok((ms, rest)) => Ok((Some(ms), rest)),
        }
    } else {
        Err(ParseError::UnsupportedOption)
    }
}

/// The key, value and expiry of a `SET`, with the items after them.
pub open spec fn read_set(args: Seq<FrameModel>) -> Result<
    (Seq<char>, Seq<u8>, Option<u64>, Seq<FrameModel>),
    ParseError,
> {
    match read_string(args) {
        Err(e) => Err(e),
        Ok((key, rest)) => match read_bytes(rest) {
            Err(e) => Err(e),
            Ok((value, rest)) => if rest.len() == 0 {
                Ok((key, value, None, rest))
            } else {
                match string_of(rest[0]) {
                    Err(e) => Err(e),
                    Ok(option) => match read_expire(upper_of(option), rest.drop_first()) {
                        Err(e) => Err(e),
                        Ok((expire, rest)) => Ok((key, value, expire, rest)),
                    },
                }
            },
        },
    }
}

/// The message of a `PING`, with the items after it.
pub open spec fn read_ping(args: Seq<FrameModel>) -> Result<
    (Option<Seq<u8>>, Seq<FrameModel>),
    ParseError,
> {
    if args.len() == 0 {
        Ok((None, args))
    } else {
        match bytes_of(args[0]) {
            Ok(b) => Ok((Some(b), args.drop_first())),
            Err(e) => Err(e),
        }
    }
}

pub open spec fn finished(c: CommandModel, rest: Seq<FrameModel>) -> Result<CommandModel, ParseError> {
    if rest.len() == 0 {
        Ok(c)
    } else {
        Err(ParseError::TrailingItems)
    }
}

/// The command that the lower-case name `name` and the items `args` after it make.
pub open spec fn command_named(name: Seq<char>, args: Seq<FrameModel>) -> Result<
    CommandModel,
    ParseError,
> {
    if name == "get"@ {
        match read_string(args) {
            Err(e) => Err(e),
            Ok((key, rest)) => finished(CommandModel::Get { key }, rest),
        }
    } else if name == "publish"@ {
        match read_string(args) {
            Err(e) => Err(e),
            Ok((channel, rest)) => match read_bytes(rest) {
                Err(e) => Err(e),
                Ok((message, rest)) => finished(CommandModel::Publish { channel, message }, rest),
            },
        }
    } else if name == "set"@ {
        match read_set(args) {
            Err(e) => Err(e),
            Ok((key, value, expire, rest)) => finished(
                CommandModel::SetCmd { key, value, expire },
                rest,
            ),
        }
    } else if name == "subscribe"@ {
        if args.len() == 0 {
            Err(ParseError::EndOfStream)
        } else {
            match read_strings(args) {
                Err(e) => Err(e),
                Ok(channels) => Ok(CommandModel::Subscribe { channels }),
            }
        }
    } else if name == "unsubscribe"@ {
        match read_strings(args) {
            Err(e) => Err(e),
            Ok(channels) => Ok(CommandModel::Unsubscribe { channels }),
        }
    } else if name == "ping"@ {
        match read_ping(args) {
            Err(e) => Err(e),
            Ok((msg, rest)) => finished(CommandModel::Ping { msg }, rest),
        }
    } else {
        Ok(CommandModel::Unknown { name })
    }
}

/// The command that a frame holds: an array whose first item names the
/// command in any case.
pub open spec fn command_of(f: FrameModel) -> Result<CommandModel, ParseError> {
    match f {
        FrameModel::Array(args) => match read_string(args) {
            Err(e) => Err(e),
            Ok((name, rest)) => command_named(lower_of(name), rest),
        },
        _ => Err(ParseError::NotAnArray),
    }
}

/// A frame that is an array of bulk items.
pub open spec fn bulks(items: Seq<Seq<u8>>) -> FrameModel {
    FrameModel::Array(items.map_values(|b: Seq<u8>| FrameModel::Bulk(b)))
}

pub open spec fn text_bulks(items: Seq<Seq<char>>) -> Seq<Seq<u8>> {
    items.map_values(|s: Seq<char>| encode_utf8(s))
}

fn copy_text(s: &str) -> (r: String)
    ensures
        r@ == s@,
{
    s.to_owned()
}

/// Appends a text item to an array frame.
fn push_text(frame: &mut Frame, s: &str)
    requires
        old(frame)@ is Array,
    ensures
        final(frame)@ == FrameModel::Array(
            old(frame)@->Array_0.push(FrameModel::Bulk(encode_utf8(s@))),
        ),
{
    frame.push_bulk(text_bytes(s));
}

/// Reads every remaining item as text.
fn read_channels(parse: &mut Parse) -> (r: Result<Vec<String>, ParseError>)
    ensures
        match read_strings(old(parse)@) {
            Ok(t) => r matches Ok(v) && texts_view(v@) == t,
            Err(e) => r == Err::<Vec<String>, ParseError>(e),
        },
        r is Ok ==> final(parse)@.len() == 0,
{
    let mut channels: Vec<String> = Vec::new();
    loop
        invariant
            read_strings(old(parse)@) == match read_strings(parse@) {
                Ok(t) => Ok::<Seq<Seq<char>>, ParseError>(texts_view(channels@) + t),
                Err(e) => Err(e),
            },
        decreases parse@.len(),
    {
        let ghost before = parse@;
        match parse.next_string() {
            Ok(s) => {
                proof {
                    assert(texts_view(channels@.push(s)) =~= texts_view(channels@).push(s@));
                    match read_strings(before.drop_first()) {
                        Ok(t) => {
                            assert(texts_view(channels@) + (seq![s@] + t) =~= texts_view(
                                channels@.push(s),
                            ) + t);
                        },
                        Err(e) => {},
                    }
                }
                channels.push(s);
            },
            Err(ParseError::EndOfStream) => {
                assert(texts_view(channels@) + Seq::<Seq<char>>::empty() =~= texts_view(channels@));
                return Ok(channels);
            },
            Err(e) => {
                return Err(e);
            },
        }
    }
}


/// `GET key`: the value stored under `key`.
pub struct Get {
    key: String,
}

impl View for Get {
    type V = Seq<char>;

    closed spec fn view(&self) -> Seq<char> {
        self.key@
    }
}

impl Get {
    pub fn new(key: &str) -> (r: Get)
        ensures
            r@ == key@,
    {
        Get { key: copy_text(key) }
    }

    pub fn key(&self) -> (r: &str)
        ensures
            r@ == self@,
    {
        self.key.as_str()
    }

    /// Reads the key.
    pub fn parse_frames(parse: &mut Parse) -> (r: Result<Get, ParseError>)
        ensures
            match read_string(old(parse)@) {
                Ok((key, rest)) => r matches Ok(g) && g@ == key && final(parse)@ == rest,
                Err(e) => r == Err::<Get, ParseError>(e),
            },
    {
        let key = parse.next_string()?;
        Ok(Get { key })
    }

    /// `GET key` as an array of bulk items.
    pub fn into_frame(self) -> (r: Frame)
        ensures
            r@ == bulks(text_bulks(seq!["get"@, self@])),
    {
        let mut frame = Frame::array();
        push_text(&mut frame, "get");
        push_text(&mut frame, self.key.as_str());
        assert(frame@->Array_0 =~= bulks(text_bulks(seq!["get"@, self@]))->Array_0);
        frame
    }
}

/// `PUBLISH channel message`: hands `message` to the subscribers of `channel`.
pub struct Publish {
    channel: String,
    message: Vec<u8>,
}

impl View for Publish {
    type V = (Seq<char>, Seq<u8>);

    closed spec fn view(&self) -> (Seq<char>, Seq<u8>) {
        (self.channel@, self.message@)
    }
}

impl Publish {
    pub fn new(channel: &str, message: Vec<u8>) -> (r: Publish)
        ensures
            r@ == (channel@, message@),
    {
        Publish { channel: copy_text(channel), message }
    }

    pub fn channel(&self) -> (r: &str)
        ensures
            r@ == self@.0,
    {
        self.channel.as_str()
    }

    pub fn message(&self) -> (r: &Vec<u8>)
        ensures
            r@ == self@.1,
    {
        &self.message
    }

    /// Reads the channel and the message.
    pub fn parse_frames(parse: &mut Parse) -> (r: Result<Publish, ParseError>)
        ensures
            match read_string(old(parse)@) {
                Err(e) => r == Err::<Publish, ParseError>(e),
                Ok((channel, rest)) => match read_bytes(rest) {
                    Err(e) => r == Err::<Publish, ParseError>(e),
                    Ok((message, rest)) => r matches Ok(p) && p@ == (channel, message)
                        && final(parse)@ == rest,
                },
            },
    {
        let channel = parse.next_string()?;
        let message = parse.next_bytes()?;
        Ok(Publish { channel, message })
    }

    /// `PUBLISH channel message` as an array of bulk items.
    pub fn into_frame(self) -> (r: Frame)
        ensures
            r@ == bulks(seq![encode_utf8("publish"@), encode_utf8(self@.0), self@.1]),
    {
        let mut frame = Frame::array();
        push_text(&mut frame, "publish");
        push_text(&mut frame, self.channel.as_str());
        frame.push_bulk(self.message);
        assert(frame@->Array_0 =~= bulks(
            seq![encode_utf8("publish"@), encode_utf8(self@.0), self@.1],
        )->Array_0);
        frame
    }
}

/// `SET key value [EX seconds | PX milliseconds]`.
pub struct SetCmd {
    key: String,
    value: Vec<u8>,
    expire: Option<u64>,
}

impl View for SetCmd {
    type V = (Seq<char>, Seq<u8>, Option<u64>);

    closed spec fn view(&self) -> (Seq<char>, Seq<u8>, Option<u64>) {
        (self.key@, self.value@, self.expire)
    }
}

/// The items of a `SET` frame, all bulk: the expiry goes as `PX` and the
/// decimal digits of the milliseconds.
pub open spec fn set_frame(key: Seq<char>, value: Seq<u8>, expire: Option<u64>) -> FrameModel {
    let head = seq![
        FrameModel::Bulk(encode_utf8("set"@)),
        FrameModel::Bulk(encode_utf8(key)),
        FrameModel::Bulk(value),
    ];
    match expire {
        None => FrameModel::Array(head),
        Some(ms) => FrameModel::Array(
            head + seq![
                FrameModel::Bulk(encode_utf8("px"@)),
                FrameModel::Bulk(decimal(ms as nat)),
            ],
        ),
    }
}

impl SetCmd {
    /// `expire` is in milliseconds.
    pub fn new(key: &str, value: Vec<u8>, expire: Option<u64>) -> (r: SetCmd)
        ensures
            r@ == (key@, value@, expire),
    {
        SetCmd { key: copy_text(key), value, expire }
    }

    pub fn key(&self) -> (r: &str)
        ensures
            r@ == self@.0,
    {
        self.key.as_str()
    }

    pub fn value(&self) -> (r: &Vec<u8>)
        ensures
            r@ == self@.1,
    {
        &self.value
    }

    /// The time to live in milliseconds, if any.
    pub fn expire(&self) -> (r: Option<u64>)
        ensures
            r == self@.2,
    {
        self.expire
    }

    /// `SET key value [PX milliseconds]` as an array frame.
    pub fn into_frame(self) -> (r: Frame)
        ensures
            r@ == set_frame(self@.0, self@.1, self@.2),
    {
        let mut frame = Frame::array();
        push_text(&mut frame, "set");
        push_text(&mut frame, self.key.as_str());
        frame.push_bulk(self.value);
        if let Some(ms) = self.expire {
            push_text(&mut frame, "px");
            let mut digits: Vec<u8> = Vec::new();
            write_decimal(ms, &mut digits);
            assert(digits@ =~= decimal(ms as nat));
            frame.push_bulk(digits);
        }
        assert(frame@->Array_0 =~= set_frame(self@.0, self@.1, self@.2)->Array_0);
        frame
    }

    /// Reads the expiry that follows the option `option`, given in upper case.
    pub fn parse_expire(option: &str, parse: &mut Parse) -> (r: Result<Option<u64>, ParseError>)
        ensures
            match read_expire(option@, old(parse)@) {
                Ok((expire, rest)) => r == Ok::<Option<u64>, ParseError>(expire)
                    && final(parse)@ == rest,
                Err(e) => r == Err::<Option<u64>, ParseError>(e),
            },
    {
        if same_text(option, "EX") {
            let secs = parse.next_int()?;
            if secs > u64::MAX / 1000 {
                return Err(ParseError::InvalidNumber);
            }
            Ok(Some(secs * 1000))
        } else if same_text(option, "PX") {
            let ms = parse.next_int()?;
            Ok(Some(ms))
        } else {
            Err(ParseError::UnsupportedOption)
        }
    }

    /// Reads the key, the value and an optional expiry.
    pub fn parse_frames(parse: &mut Parse) -> (r: Result<SetCmd, ParseError>)
        ensures
            match read_set(old(parse)@) {
                Ok((key, value, expire, rest)) => r matches Ok(s) && s@ == (key, value, expire)
                    && final(parse)@ == rest,
                Err(e) => r == Err::<SetCmd, ParseError>(e),
            },
    {
        let key = parse.next_string()?;
        let value = parse.next_bytes()?;
        let expire = match parse.next_string() {
            Ok(option) => SetCmd::parse_expire(uppercase(option.as_str()).as_str(), parse)?,
            Err(ParseError::EndOfStream) => None,
            Err(e) => {
                return Err(e);
            },
        };
        Ok(SetCmd { key, value, expire })
    }
}


/// `SUBSCRIBE channel [channel ...]`.
pub struct Subscribe {
    channels: Vec<String>,
}

impl View for Subscribe {
    type V = Seq<Seq<char>>;

    closed spec fn view(&self) -> Seq<Seq<char>> {
        texts_view(self.channels@)
    }
}

impl Subscribe {
    pub fn new(channels: Vec<String>) -> (r: Subscribe)
        ensures
            r@ == texts_view(channels@),
    {
        Subscribe { channels }
    }

    pub fn channels(&self) -> (r: &Vec<String>)
        ensures
            texts_view(r@) == self@,
    {
        &self.channels
    }

    /// Gives up the channels.
    pub fn into_channels(self) -> (r: Vec<String>)
        ensures
            texts_view(r@) == self@,
    {
        self.channels
    }

    /// Reads one channel or more.
    pub fn parse_frames(parse: &mut Parse) -> (r: Result<Subscribe, ParseError>)
        ensures
            old(parse)@.len() == 0 ==> r == Err::<Subscribe, ParseError>(ParseError::EndOfStream),
            old(parse)@.len() > 0 ==> match read_strings(old(parse)@) {
                Ok(channels) => r matches Ok(s) && s@ == channels && final(parse)@.len() == 0,
                Err(e) => r == Err::<Subscribe, ParseError>(e),
            },
    {
        let ghost args = parse@;
        let first = parse.next_string()?;
        let mut rest = read_channels(parse)?;
        let ghost rest_view = rest@;
        let mut channels: Vec<String> = Vec::new();
        channels.push(first);
        channels.append(&mut rest);
        proof {
            assert(channels@ =~= seq![first] + rest_view);
            assert(texts_view(channels@) =~= seq![first@] + texts_view(rest_view));
        }
        Ok(Subscribe { channels })
    }

    /// `SUBSCRIBE channel ...` as an array of bulk items.
    pub fn into_frame(self) -> (r: Frame)
        ensures
            r@ == bulks(text_bulks(seq!["subscribe"@] + self@)),
    {
        channels_frame("subscribe", &self.channels)
    }
}

/// An array frame of `name` and then `channels`, each as bulk text.
fn channels_frame(name: &str, channels: &Vec<String>) -> (r: Frame)
    ensures
        r@ == bulks(text_bulks(seq![name@] + texts_view(channels@))),
{
    let mut frame = Frame::array();
    push_text(&mut frame, name);
    assert(frame@->Array_0 =~= bulks(
        text_bulks(seq![name@] + texts_view(channels@.take(0))),
    )->Array_0);
    let mut i: usize = 0;
    while i < channels.len()
        invariant
            i <= channels@.len(),
            frame@ == bulks(text_bulks(seq![name@] + texts_view(channels@.take(i as int)))),
        decreases channels@.len() - i,
    {
        push_text(&mut frame, channels[i].as_str());
        i += 1;
        assert(frame@->Array_0 =~= bulks(
            text_bulks(seq![name@] + texts_view(channels@.take(i as int))),
        )->Array_0);
    }
    assert(channels@.take(i as int) =~= channels@);
    frame
}

/// `UNSUBSCRIBE [channel ...]`; no channel stands for every subscribed one.
pub struct Unsubscribe {
    channels: Vec<String>,
}

impl View for Unsubscribe {
    type V = Seq<Seq<char>>;

    closed spec fn view(&self) -> Seq<Seq<char>> {
        texts_view(self.channels@)
    }
}

impl Unsubscribe {
    pub fn new(channels: &[String]) -> (r: Unsubscribe)
        ensures
            r@ == texts_view(channels@),
    {
        let mut v: Vec<String> = Vec::new();
        let mut i: usize = 0;
        while i < channels.len()
            invariant
                i <= channels@.len(),
                texts_view(v@) == texts_view(channels@.take(i as int)),
            decreases channels@.len() - i,
        {
            let c = channels[i].clone();
            let ghost before = v@;
            v.push(c);
            i += 1;
            assert(v@ =~= before.push(c));
            assert(texts_view(v@) =~= texts_view(before).push(c@));
            assert(texts_view(v@) =~= texts_view(channels@.take(i as int)));
        }
        assert(channels@.take(i as int) =~= channels@);
        Unsubscribe { channels: v }
    }

    pub fn channels(&self) -> (r: &Vec<String>)
        ensures
            texts_view(r@) == self@,
    {
        &self.channels
    }

    /// Gives up the channels.
    pub fn into_channels(self) -> (r: Vec<String>)
        ensures
            texts_view(r@) == self@,
    {
        self.channels
    }

    /// Reads any number of channels.
    pub fn parse_frames(parse: &mut Parse) -> (r: Result<Unsubscribe, ParseError>)
        ensures
            match read_strings(old(parse)@) {
                Ok(channels) => r matches Ok(u) && u@ == channels && final(parse)@.len() == 0,
                Err(e) => r == Err::<Unsubscribe, ParseError>(e),
            },
    {
        let channels = read_channels(parse)?;
        Ok(Unsubscribe { channels })
    }

    /// `UNSUBSCRIBE channel ...` as an array of bulk items.
    pub fn into_frame(self) -> (r: Frame)
        ensures
            r@ == bulks(text_bulks(seq!["unsubscribe"@] + self@)),
    {
        channels_frame("unsubscribe", &self.channels)
    }
}

/// `PING [message]`.
pub struct Ping {
    msg: Option<Vec<u8>>,
}

impl View for Ping {
    type V = Option<Seq<u8>>;

    closed spec fn view(&self) -> Option<Seq<u8>> {
        match self.msg {
            Some(m) => Some(m@),
            None => None,
        }
    }
}

impl Ping {
    pub fn new(msg: Option<Vec<u8>>) -> (r: Ping)
        ensures
            r@ == match msg {
                Some(m) => Some(m@),
                None => None::<Seq<u8>>,
            },
    {
        Ping { msg }
    }

    /// Reads an optional message.
    pub fn parse_frames(parse: &mut Parse) -> (r: Result<Ping, ParseError>)
        ensures
            match read_ping(old(parse)@) {
                Ok((msg, rest)) => r matches Ok(p) && p@ == msg && final(parse)@ == rest,
                Err(e) => r == Err::<Ping, ParseError>(e),
            },
    {
        match parse.next_bytes() {
            Ok(msg) => Ok(Ping { msg: Some(msg) }),
            Err(ParseError::EndOfStream) => Ok(Ping { msg: None }),
            Err(e) => Err(e),
        }
    }

    /// `PING [message]` as an array of bulk items.
    pub fn into_frame(self) -> (r: Frame)
        ensures
            r@ == bulks(
                match self@ {
                    Some(m) => seq![encode_utf8("ping"@), m],
                    None => seq![encode_utf8("ping"@)],
                },
            ),
    {
        let ghost v = self@;
        let mut frame = Frame::array();
        push_text(&mut frame, "ping");
        if let Some(msg) = self.msg {
            frame.push_bulk(msg);
        }
        assert(frame@->Array_0 =~= bulks(
            match v {
                Some(m) => seq![encode_utf8("ping"@), m],
                None => seq![encode_utf8("ping"@)],
            },
        )->Array_0);
        frame
    }

    /// The message to echo: the one given, or `PONG`.
    pub fn get_msg(self) -> (r: Vec<u8>)
        ensures
            r@ == match self@ {
                Some(m) => m,
                None => encode_utf8("PONG"@),
            },
    {
        match self.msg {
            Some(msg) => msg,
            None => text_bytes("PONG"),
        }
    }
}

/// A command this server does not know, by its lower-case name.
pub struct Unknown {
    command_name: String,
}

impl View for Unknown {
    type V = Seq<char>;

    closed spec fn view(&self) -> Seq<char> {
        self.command_name@
    }
}

impl Unknown {
    pub fn new(key: &str) -> (r: Unknown)
        ensures
            r@ == key@,
    {
        Unknown { command_name: copy_text(key) }
    }

    pub fn get_name(&self) -> (r: &str)
        ensures
            r@ == self@,
    {
        self.command_name.as_str()
    }
}


/// A command read from a client.
pub enum Command {
    Get(Get),
    SetCmd(SetCmd),
    Publish(Publish),
    Subscribe(Subscribe),
    Unsubscribe(Unsubscribe),
    Ping(Ping),
    Unknown(Unknown),
}

impl View for Command {
    type V = CommandModel;

    open spec fn view(&self) -> CommandModel {
        match self {
            Command::Get(c) => CommandModel::Get { key: c@ },
            Command::SetCmd(c) => CommandModel::SetCmd { key: c@.0, value: c@.1, expire: c@.2 },
            Command::Publish(c) => CommandModel::Publish { channel: c@.0, message: c@.1 },
            Command::Subscribe(c) => CommandModel::Subscribe { channels: c@ },
            Command::Unsubscribe(c) => CommandModel::Unsubscribe { channels: c@ },
            Command::Ping(c) => CommandModel::Ping { msg: c@ },
            Command::Unknown(c) => CommandModel::Unknown { name: c@ },
        }
    }
}

/// The frame a client sends for a command: its name and its items, as bulk items.
pub open spec fn command_frame(c: CommandModel) -> FrameModel {
    match c {
        CommandModel::Get { key } => bulks(text_bulks(seq!["get"@, key])),
        CommandModel::SetCmd { key, value, expire } => set_frame(key, value, expire),
        CommandModel::Publish { channel, message } => bulks(
            seq![encode_utf8("publish"@), encode_utf8(channel), message],
        ),
        CommandModel::Subscribe { channels } => bulks(text_bulks(seq!["subscribe"@] + channels)),
        CommandModel::Unsubscribe { channels } => bulks(
            text_bulks(seq!["unsubscribe"@] + channels),
        ),
        CommandModel::Ping { msg } => bulks(
            match msg {
                Some(m) => seq![encode_utf8("ping"@), m],
                None => seq![encode_utf8("ping"@)],
            },
        ),
        CommandModel::Unknown { name } => bulks(seq![encode_utf8(name)]),
    }
}

/// A command name that the server does not know reads as an unknown command,
/// whatever items follow it: reading it never fails, so the connection goes on.
pub proof fn lemma_unknown_command_reads(name: Seq<char>, args: Seq<FrameModel>)
    requires
        name != "get"@,
        name != "publish"@,
        name != "set"@,
        name != "subscribe"@,
        name != "unsubscribe"@,
        name != "ping"@,
    ensures
        command_named(name, args) == Ok::<CommandModel, ParseError>(CommandModel::Unknown { name }),
{
}

/// The lower-case name of a command.
pub open spec fn name_of(c: CommandModel) -> Seq<char> {
    match c {
        CommandModel::Get { .. } => "get"@,
        CommandModel::SetCmd { .. } => "set"@,
        CommandModel::Publish { .. } => "publish"@,
        CommandModel::Subscribe { .. } => "subscribe"@,
        CommandModel::Unsubscribe { .. } => "unsubscribe"@,
        CommandModel::Ping { .. } => "ping"@,
        CommandModel::Unknown { name } => name,
    }
}

impl Command {
    /// Reads a command from a frame: an array whose first item names it, in any case.
    pub fn from_frame(frame: Frame) -> (r: Result<Command, ParseError>)
        ensures
            match command_of(frame@) {
                Ok(c) => r matches Ok(cmd) && cmd@ == c,
                Err(e) => r == Err::<Command, ParseError>(e),
            },
    {
        let mut parse = Parse::new(frame)?;
        let name = parse.next_string()?;
        let name = lowercase(name.as_str());
        Command::parse_named(name, &mut parse)
    }

    /// Reads the items of the command whose lower-case name is `name`.
    pub fn parse_named(name: String, parse: &mut Parse) -> (r: Result<Command, ParseError>)
        ensures
            match command_named(name@, old(parse)@) {
                Ok(c) => r matches Ok(cmd) && cmd@ == c,
                Err(e) => r == Err::<Command, ParseError>(e),
            },
    {
        let command = if same_text(name.as_str(), "get") {
            Command::Get(Get::parse_frames(parse)?)
        } else if same_text(name.as_str(), "publish") {
            Command::Publish(Publish::parse_frames(parse)?)
        } else if same_text(name.as_str(), "set") {
            Command::SetCmd(SetCmd::parse_frames(parse)?)
        } else if same_text(name.as_str(), "subscribe") {
            Command::Subscribe(Subscribe::parse_frames(parse)?)
        } else if same_text(name.as_str(), "unsubscribe") {
            Command::Unsubscribe(Unsubscribe::parse_frames(parse)?)
        } else if same_text(name.as_str(), "ping") {
            Command::Ping(Ping::parse_frames(parse)?)
        } else {
            return Ok(Command::Unknown(Unknown { command_name: name }));
        };
        parse.finish()?;
        Ok(command)
    }

    /// The lower-case name of the command.
    pub fn get_name(&self) -> (r: &str)
        ensures
            r@ == name_of(self@),
    {
        match self {
            Command::Get(_) => "get",
            Command::SetCmd(_) => "set",
            Command::Publish(_) => "publish",
            Command::Subscribe(_) => "subscribe",
            Command::Unsubscribe(_) => "unsubscribe",
            Command::Ping(_) => "ping",
            Command::Unknown(cmd) => cmd.get_name(),
        }
    }

    /// The command as the frame a client sends.
    pub fn into_frame(self) -> (r: Frame)
        ensures
            r@ == command_frame(self@),
    {
        match self {
            Command::Get(c) => c.into_frame(),
            Command::SetCmd(c) => c.into_frame(),
            Command::Publish(c) => c.into_frame(),
            Command::Subscribe(c) => c.into_frame(),
            Command::Unsubscribe(c) => c.into_frame(),
            Command::Ping(c) => c.into_frame(),
            Command::Unknown(c) => {
                let empty: Vec<String> = Vec::new();
                let r = channels_frame(c.command_name.as_str(), &empty);
                assert(texts_view(empty@) =~= Seq::<Seq<char>>::empty());
                assert(r@->Array_0 =~= bulks(seq![encode_utf8(c@)])->Array_0);
                r
            },
        }
    }
}


/// What a connection does after a command has been applied.
pub enum Action {
    /// Write `frame` back; when `wake_purger` holds, an expiry came that is
    /// earlier than the purger waits for.
    Reply { frame: Frame, wake_purger: bool },
    /// Enter a subscribe session on `channels`.
    Subscribe { channels: Vec<String> },
}

/// Why a command cannot be applied.
#[derive(Clone, Copy, Debug, PartialEq, Eq, Structural)]
pub enum ApplyError {
    /// `UNSUBSCRIBE` came outside a subscribe session.
    UnsubscribeOutsideSession,
}

/// The reply to an unknown command.
pub open spec fn unknown_reply(name: Seq<char>) -> FrameModel {
    FrameModel::Error("ERR unknown command "@ + name)
}

/// The reply to `GET key`.
pub open spec fn get_reply(m: Map<Seq<char>, (Seq<u8>, Option<u64>)>, key: Seq<char>) -> FrameModel {
    match value_of(m, key) {
        Some(v) => FrameModel::Bulk(v),
        None => FrameModel::Null,
    }
}

/// The reply to `PING`.
pub open spec fn ping_reply(msg: Option<Seq<u8>>) -> FrameModel {
    match msg {
        Some(m) => FrameModel::Bulk(m),
        None => FrameModel::Simple("PONG"@),
    }
}

impl Get {
    /// The value under the key as bulk bytes, or null.
    pub fn apply(&self, store: &Store) -> (r: Frame)
        ensures
            r@ == get_reply(store@, self@),
    {
        match store.get(self.key.as_str()) {
            Some(value) => Frame::Bulk(value),
            None => Frame::Null,
        }
    }
}

impl SetCmd {
    /// Stores the value at time `now`; the reply is `OK`, with whether the
    /// purger must wake.
    pub fn apply(self, store: &mut Store, now: u64) -> (r: (Frame, bool))
        requires
            old(store).wf(),
        ensures
            final(store).wf(),
            final(store)@ == old(store)@.insert(self@.0, (self@.1, expiry_at(now, self@.2))),
            final(store).channel_names() == old(store).channel_names(),
            final(store).stopped() == old(store).stopped(),
            r.0@ == FrameModel::Simple("OK"@),
            r.1 == match expiry_at(now, self@.2) {
                None => false,
                Some(t) => forall|k: Seq<char>| #[trigger]
                    old(store)@.contains_key(k) && k != self@.0 && old(store)@[k].1 is Some ==> t
                        < old(store)@[k].1->Some_0,
            },
    {
        let wake = store.set(self.key, self.value, self.expire, now);
        (Frame::Simple(copy_text("OK")), wake)
    }
}

impl Publish {
    /// Hands the message on; the reply is the number of subscribers reached.
    pub fn apply(self, store: &mut Store) -> (r: Frame)
        requires
            old(store).wf(),
        ensures
            final(store).wf(),
            final(store)@ == old(store)@,
            final(store).stopped() == old(store).stopped(),
            r@ is Integer,
            !old(store).channel_names().contains(self@.0) ==> r@ == FrameModel::Integer(0)
                && final(store).channel_names() == old(store).channel_names(),
            r@ == FrameModel::Integer(0) ==> final(store).channel_names() == old(
                store,
            ).channel_names().remove(self@.0),
            r@ != FrameModel::Integer(0) ==> final(store).channel_names() == old(
                store,
            ).channel_names(),
    {
        let n = store.publish(self.channel.as_str(), self.message);
        Frame::Integer(n)
    }
}

impl Ping {
    /// `PONG` as a simple string, or the message as bulk bytes.
    pub fn apply(self) -> (r: Frame)
        ensures
            r@ == ping_reply(self@),
    {
        match self.msg {
            Some(msg) => Frame::Bulk(msg),
            None => Frame::Simple(copy_text("PONG")),
        }
    }
}

impl Unknown {
    /// The error that names the command.
    pub fn apply(&self) -> (r: Frame)
        ensures
            r@ == unknown_reply(self@),
    {
        let mut text = copy_text("ERR unknown command ");
        text.append(self.command_name.as_str());
        Frame::Error(text)
    }
}

impl Command {
    /// Applies the command to the store at time `now`.
    pub fn apply(self, store: &mut Store, now: u64) -> (r: Result<Action, ApplyError>)
        requires
            old(store).wf(),
        ensures
            final(store).wf(),
            final(store).stopped() == old(store).stopped(),
            match self@ {
                CommandModel::Get { key } => r matches Ok(Action::Reply { frame, wake_purger })
                    && frame@ == get_reply(old(store)@, key) && !wake_purger && *final(store)
                    == *old(store),
                CommandModel::SetCmd { key, value, expire } => r matches Ok(
                    Action::Reply { frame, wake_purger },
                ) && frame@ == FrameModel::Simple("OK"@) && final(store)@ == old(store)@.insert(
                    key,
                    (value, expiry_at(now, expire)),
                ) && final(store).channel_names() == old(store).channel_names() && wake_purger
                    == match expiry_at(now, expire) {
                    None => false,
                    Some(t) => forall|k: Seq<char>| #[trigger]
                        old(store)@.contains_key(k) && k != key && old(store)@[k].1 is Some ==> t
                            < old(store)@[k].1->Some_0,
                },
                CommandModel::Publish { channel, message } => r matches Ok(
                    Action::Reply { frame, wake_purger },
                ) && frame@ is Integer && !wake_purger && final(store)@ == old(store)@ && (
                !old(store).channel_names().contains(channel) ==> frame@ == FrameModel::Integer(
                    0,
                )) && (frame@ == FrameModel::Integer(0) ==> final(store).channel_names() == old(
                    store,
                ).channel_names().remove(channel)) && (frame@ != FrameModel::Integer(0)
                    ==> final(store).channel_names() == old(store).channel_names()),
                CommandModel::Subscribe { channels } => r matches Ok(Action::Subscribe { channels: c })
                    && texts_view(c@) == channels && *final(store) == *old(store),
                CommandModel::Unsubscribe { .. } => r == Err::<Action, ApplyError>(
                    ApplyError::UnsubscribeOutsideSession,
                ) && *final(store) == *old(store),
                CommandModel::Ping { msg } => r matches Ok(Action::Reply { frame, wake_purger })
                    && frame@ == ping_reply(msg) && !wake_purger && *final(store) == *old(store),
                CommandModel::Unknown { name } => r matches Ok(
                    Action::Reply { frame, wake_purger },
                ) && frame@ == unknown_reply(name) && !wake_purger && *final(store) == *old(store),
            },
    {
        match self {
            Command::Get(cmd) => Ok(Action::Reply { frame: cmd.apply(store), wake_purger: false }),
            Command::SetCmd(cmd) => {
                let (frame, wake_purger) = cmd.apply(store, now);
                Ok(Action::Reply { frame, wake_purger })
            },
            Command::Publish(cmd) => Ok(Action::Reply { frame: cmd.apply(store), wake_purger: false }),
            Command::Subscribe(cmd) => Ok(Action::Subscribe { channels: cmd.channels }),
            Command::Unsubscribe(_) => Err(ApplyError::UnsubscribeOutsideSession),
            Command::Ping(cmd) => Ok(Action::Reply { frame: cmd.apply(), wake_purger: false }),
            Command::Unknown(cmd) => Ok(Action::Reply { frame: cmd.apply(), wake_purger: false }),
        }
    }
}

} // verus!
