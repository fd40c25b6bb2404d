//! The client side: what a reply means, and the channel list of a subscriber.

use vstd::prelude::*;
use vstd::utf8::*;

use crate::cmd::texts_view;
use crate::frame::{Frame, FrameModel, frames_view, lemma_frames_view};
use crate::session::without;
use crate::text::{same_text, string_from_utf8, text_bytes};

verus! {

/// Whether an item stands for the text `t`, as a simple string or as bulk bytes.
pub open spec fn is_text(f: FrameModel, t: Seq<char>) -> bool {
    match f {
        FrameModel::Simple(s) => s == t,
        FrameModel::Bulk(b) => b == encode_utf8(t),
        _ => false,
    }
}

fn same_bytes(a: &[u8], b: &[u8]) -> (r: bool)
    ensures
        r == (a@ == b@),
{
    if a.len() != b.len() {
        return false;
    }
    let mut i: usize = 0;
    while i < a.len()
        invariant
            a@.len() == b@.len(),
            i <= a@.len(),
            forall|j: int| 0 <= j < i ==> a@[j] == b@[j],
        decreases a@.len() - i,
    {
        if a[i] != b[i] {
            return false;
        }
        i += 1;
    }
    assert(a@ =~= b@);
    true
}

/// Whether `frame` stands for the text `t`.
pub fn frame_is_text(frame: &Frame, t: &str) -> (r: bool)
    ensures
        r == is_text(frame@, t@),
{
    match frame {
        Frame::Simple(s) => same_text(s.as_str(), t),
        Frame::Bulk(b) => same_bytes(b.as_slice(), text_bytes(t).as_slice()),
        _ => false,
    }
}

/// The value a `GET` reply carries: text or bulk bytes, or none for null.
pub open spec fn get_value(f: FrameModel) -> Option<Option<Seq<u8>>> {
    match f {
        FrameModel::Simple(s) => Some(Some(encode_utf8(s))),
        FrameModel::Bulk(b) => Some(Some(b)),
        FrameModel::Null => Some(None),
        _ => None,
    }
}

/// Reads a `GET` reply; another frame comes back as the error.
pub fn get_response(frame: Frame) -> (r: Result<Option<Vec<u8>>, Frame>)
    ensures
        match get_value(frame@) {
            Some(Some(v)) => r matches Ok(Some(data)) && data@ == v,
            Some(None) => r matches Ok(None),
            None => r matches Err(f) && f@ == frame@,
        },
{
    match frame {
        Frame::Simple(s) => Ok(Some(text_bytes(s.as_str()))),
        Frame::Bulk(b) => Ok(Some(b)),
        Frame::Null => Ok(None),
        other => Err(other),
    }
}

/// Reads a `PING` reply; another frame comes back as the error.
pub fn ping_response(frame: Frame) -> (r: Result<Vec<u8>, Frame>)
    ensures
        match frame@ {
            FrameModel::Simple(s) => r matches Ok(data) && data@ == encode_utf8(s),
            FrameModel::Bulk(b) => r matches Ok(data) && data@ == b,
            _ => r matches Err(f) && f@ == frame@,
        },
{
    match frame {
        Frame::Simple(s) => Ok(text_bytes(s.as_str())),
        Frame::Bulk(b) => Ok(b),
        other => Err(other),
    }
}

/// Reads a `PUBLISH` reply; another frame comes back as the error.
pub fn publish_response(frame: Frame) -> (r: Result<u64, Frame>)
    ensures
        match frame@ {
            FrameModel::Integer(n) => r == Ok::<u64, Frame>(n),
            _ => r matches Err(f) && f@ == frame@,
        },
{
    match frame {
        Frame::Integer(n) => Ok(n),
        other => Err(other),
    }
}

/// Whether `f` confirms the action `kind` on `channel`: an array that starts
/// with `kind` and the channel.
pub open spec fn confirms(f: FrameModel, kind: Seq<char>, channel: Seq<char>) -> bool {
    f matches FrameModel::Array(items) && items.len() >= 2 && is_text(items[0], kind)
        && is_text(items[1], channel)
}

/// Whether `frame` confirms the subscription to `channel`.
pub fn is_subscribe_confirmation(frame: &Frame, channel: &str) -> (r: bool)
    ensures
        r == confirms(frame@, "subscribe"@, channel@),
{
    is_confirmation(frame, "subscribe", channel)
}

/// Whether `frame` confirms the action `kind` (`subscribe` or `unsubscribe`) on `channel`.
pub fn is_confirmation(frame: &Frame, kind: &str, channel: &str) -> (r: bool)
    ensures
        r == confirms(frame@, kind@, channel@),
{
    match frame {
        Frame::Array(items) => {
            proof {
                lemma_frames_view(items@);
            }
            items.len() >= 2 && frame_is_text(&items[0], kind) && frame_is_text(
                &items[1],
                channel,
            )
        },
        _ => false,
    }
}

/// A message received on a channel.
pub struct Message {
    pub channel: String,
    pub content: Vec<u8>,
}

/// The channel and the payload that a message frame carries: an array of
/// `message`, the channel as UTF-8 bulk bytes, and the payload as bulk bytes.
pub open spec fn message_parts(f: FrameModel) -> Option<(Seq<char>, Seq<u8>)> {
    match f {
        FrameModel::Array(items) => if items.len() == 3 && is_text(items[0], "message"@)
            && items[1] is Bulk && valid_utf8(items[1]->Bulk_0) && items[2] is Bulk {
            Some((decode_utf8(items[1]->Bulk_0), items[2]->Bulk_0))
        } else {
            None
        },
        _ => None,
    }
}

/// Reads a message frame; another frame comes back as the error.
pub fn message_of(frame: Frame) -> (r: Result<Message, Frame>)
    ensures
        match message_parts(frame@) {
            Some((channel, content)) => r matches Ok(m) && m.channel@ == channel && m.content@
                == content,
            None => r matches Err(f) && f@ == frame@,
        },
{
    match frame {
        Frame::Array(mut items) => {
            proof {
                lemma_frames_view(items@);
            }
            if items.len() != 3 || !frame_is_text(&items[0], "message") {
                return Err(Frame::Array(items));
            }
            let payload_is_bulk = match &items[2] {
                Frame::Bulk(_) => true,
                _ => false,
            };
            let channel = match &items[1] {
                Frame::Bulk(c) => string_from_utf8(vstd::slice::slice_to_vec(c.as_slice())),
                _ => None,
            };
            let channel = match channel {
                Some(channel) if payload_is_bulk => channel,
                _ => {
                    return Err(Frame::Array(items));
                },
            };
            match items.pop() {
                Some(Frame::Bulk(content)) => Ok(Message { channel, content }),
                // The last item was found to be bulk bytes above.
                _ => Err(Frame::Null),
            }
        },
        other => Err(other),
    }
}

/// The channels a client subscriber listens to.
pub struct Subscriber {
    subscribed_channels: Vec<String>,
}

impl View for Subscriber {
    type V = Seq<Seq<char>>;

    closed spec fn view(&self) -> Seq<Seq<char>> {
        texts_view(self.subscribed_channels@)
    }
}

impl Subscriber {
    /// A subscriber to `channels`, once the server has confirmed each.
    pub fn new(channels: Vec<String>) -> (r: Subscriber)
        ensures
            r@ == texts_view(channels@),
    {
        Subscriber { subscribed_channels: channels }
    }

    /// The channels listened to.
    pub fn get_subscribed(&self) -> (r: &[String])
        ensures
            texts_view(r@) == self@,
    {
        self.subscribed_channels.as_slice()
    }

    /// Adds `channels` after a further subscription.
    pub fn add_channels(&mut self, channels: &[String])
        ensures
            final(self)@ == old(self)@ + texts_view(channels@),
    {
        let mut i: usize = 0;
        while i < channels.len()
            invariant
                i <= channels@.len(),
                self@ == old(self)@ + texts_view(channels@.take(i as int)),
            decreases channels@.len() - i,
        {
            let c = channels[i].clone();
            let ghost before = self.subscribed_channels@;
            self.subscribed_channels.push(c);
            i += 1;
            proof {
                assert(self.subscribed_channels@ =~= before.push(c));
                assert(texts_view(self.subscribed_channels@) =~= texts_view(before).push(c@));
                assert(old(self)@ + texts_view(channels@.take(i as int)) =~= old(self)@
                    + texts_view(channels@.take(i - 1)) + seq![c@]);
            }
        }
        assert(channels@.take(i as int) =~= channels@);
    }

    /// Drops `channels` after an unsubscription; none stands for all.
    pub fn remove_channels(&mut self, channels: &[String])
        ensures
            channels@.len() == 0 ==> final(self)@ == Seq::<Seq<char>>::empty(),
            channels@.len() > 0 ==> final(self)@ == remove_all(old(self)@, texts_view(channels@)),
    {
        if channels.len() == 0 {
            self.subscribed_channels = Vec::new();
            assert(self@ =~= Seq::<Seq<char>>::empty());
            return;
        }
        let ghost names = texts_view(channels@);
        let mut i: usize = 0;
        assert(names.take(0) =~= Seq::<Seq<char>>::empty());
        while i < channels.len()
            invariant
                names == texts_view(channels@),
                i <= channels@.len(),
                self@ == remove_all(old(self)@, names.take(i as int)),
            decreases channels@.len() - i,
        {
            self.drop_channel(channels[i].as_str());
            proof {
                assert(names.take(i + 1).drop_last() =~= names.take(i as int));
            }
            i += 1;
        }
        assert(names.take(i as int) =~= names);
    }

    fn drop_channel(&mut self, channel: &str)
        ensures
            final(self)@ == without(old(self)@, channel@),
    {
        let ghost subs = self@;
        let mut kept: Vec<String> = Vec::new();
        let mut i: usize = 0;
        while i < self.subscribed_channels.len()
            invariant
                subs == texts_view(self.subscribed_channels@),
                i <= self.subscribed_channels@.len(),
                texts_view(kept@) == without(subs.take(i as int), channel@),
            decreases self.subscribed_channels@.len() - i,
        {
            let ghost before = kept@;
            proof {
                assert(subs.take(i + 1).drop_last() =~= subs.take(i as int));
            }
            if !same_text(self.subscribed_channels[i].as_str(), channel) {
                let c = self.subscribed_channels[i].clone();
                kept.push(c);
                assert(kept@ =~= before.push(c));
                assert(texts_view(kept@) =~= texts_view(before).push(c@));
            }
            i += 1;
        }
        assert(subs.take(i as int) =~= subs);
        self.subscribed_channels = kept;
    }
}

/// `subs` without any of `chans`.
pub open spec fn remove_all(subs: Seq<Seq<char>>, chans: Seq<Seq<char>>) -> Seq<Seq<char>>
    decreases chans.len(),
{
    if chans.len() == 0 {
        subs
    } else {
        without(remove_all(subs, chans.drop_last()), chans.last())
    }
}

} // verus!
