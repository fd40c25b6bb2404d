//! The decisions of a subscribe session: which channels it listens to, and
//! what it answers.

use vstd::prelude::*;
use vstd::utf8::*;

use crate::cmd::{Command, CommandModel, texts_view, unknown_reply};
use crate::frame::{Frame, FrameModel, frames_view, lemma_frames_view};
use crate::text::{same_text, text_bytes};

verus! {

/// The confirmation of a subscription, with the number of channels now listened to.
pub open spec fn subscribe_reply(channel: Seq<char>, count: nat) -> FrameModel {
    FrameModel::Array(
        seq![
            FrameModel::Simple("subscribe"@),
            FrameModel::Bulk(encode_utf8(channel)),
            FrameModel::Integer(count as u64),
        ],
    )
}

/// The confirmation of an unsubscription, with the number of channels left.
pub open spec fn unsubscribe_reply(channel: Seq<char>, count: nat) -> FrameModel {
    FrameModel::Array(
        seq![
            FrameModel::Simple("unsubscribe"@),
            FrameModel::Bulk(encode_utf8(channel)),
            FrameModel::Integer(count as u64),
        ],
    )
}

/// A message published to a channel, as a subscriber receives it.
pub open spec fn message_reply(channel: Seq<char>, payload: Seq<u8>) -> FrameModel {
    FrameModel::Array(
        seq![
            FrameModel::Bulk(encode_utf8("message"@)),
            FrameModel::Bulk(encode_utf8(channel)),
            FrameModel::Bulk(payload),
        ],
    )
}

fn reply_frame(kind: &str, channel: &str, count: u64) -> (r: Frame)
    ensures
        r@ == FrameModel::Array(
            seq![
                FrameModel::Simple(kind@),
                FrameModel::Bulk(encode_utf8(channel@)),
                FrameModel::Integer(count),
            ],
        ),
{
    let mut items: Vec<Frame> = Vec::new();
    items.push(Frame::Simple(kind.to_owned()));
    items.push(Frame::Bulk(text_bytes(channel)));
    items.push(Frame::Integer(count));
    proof {
        lemma_frames_view(items@);
    }
    let r = Frame::Array(items);
    assert(r@->Array_0 =~= seq![
        FrameModel::Simple(kind@),
        FrameModel::Bulk(encode_utf8(channel@)),
        FrameModel::Integer(count),
    ]);
    r
}

/// The frame that carries `payload`, published to `channel`, to a subscriber.
pub fn make_message_frame(channel: &str, payload: Vec<u8>) -> (r: Frame)
    ensures
        r@ == message_reply(channel@, payload@),
{
    let mut items: Vec<Frame> = Vec::new();
    items.push(Frame::Bulk(text_bytes("message")));
    items.push(Frame::Bulk(text_bytes(channel)));
    items.push(Frame::Bulk(payload));
    proof {
        lemma_frames_view(items@);
    }
    let r = Frame::Array(items);
    assert(r@->Array_0 =~= message_reply(channel@, payload@)->Array_0);
    r
}

/// `s` without `c`.
pub open spec fn without(s: Seq<Seq<char>>, c: Seq<char>) -> Seq<Seq<char>>
    decreases s.len(),
{
    if s.len() == 0 {
        s
    } else if s.last() == c {
        without(s.drop_last(), c)
    } else {
        without(s.drop_last(), c).push(s.last())
    }
}

proof fn lemma_without(s: Seq<Seq<char>>, c: Seq<char>)
    ensures
        forall|x: Seq<char>| #[trigger] without(s, c).contains(x) ==> s.contains(x) && x != c,
        s.no_duplicates() ==> without(s, c).no_duplicates(),
    decreases s.len(),
{
    if s.len() > 0 {
        let d = s.drop_last();
        lemma_without(d, c);
        assert forall|x: Seq<char>| #[trigger] without(s, c).contains(x) implies s.contains(x) && x != c by {
            let w = without(s, c);
            let j = choose|j: int| 0 <= j < w.len() && w[j] == x;
            if s.last() != c && j == w.len() - 1 {
                assert(s[s.len() - 1] == x);
            } else {
                assert(without(d, c)[j] == x);
                assert(without(d, c).contains(x));
                let k = choose|k: int| 0 <= k < d.len() && d[k] == x;
                assert(s[k] == x);
            }
        }
        if s.no_duplicates() && s.last() != c {
            assert(d.no_duplicates()) by {
                assert forall|i: int, j: int| 0 <= i < d.len() && 0 <= j < d.len() && i != j implies d[i] != d[j] by {
                    assert(s[i] == d[i] && s[j] == d[j]);
                }
            }
            assert(!without(d, c).contains(s.last())) by {
                if without(d, c).contains(s.last()) {
                    let k = choose|k: int| 0 <= k < d.len() && d[k] == s.last();
                    assert(s[k] == s[s.len() - 1]);
                }
            }
        } else if s.no_duplicates() {
            assert(d.no_duplicates()) by {
                assert forall|i: int, j: int| 0 <= i < d.len() && 0 <= j < d.len() && i != j implies d[i] != d[j] by {
                    assert(s[i] == d[i] && s[j] == d[j]);
                }
            }
        }
    }
}

/// The channels left and the replies after unsubscribing from `chans` in turn.
pub open spec fn unsubscribe_all(subs: Seq<Seq<char>>, chans: Seq<Seq<char>>) -> (
    Seq<Seq<char>>,
    Seq<FrameModel>,
)
    decreases chans.len(),
{
    if chans.len() == 0 {
        (subs, Seq::empty())
    } else {
        let left = without(subs, chans[0]);
        let (end, replies) = unsubscribe_all(left, chans.drop_first());
        (end, seq![unsubscribe_reply(chans[0], left.len())] + replies)
    }
}

/// A subscribe session: the channels listened to, in the order they were
/// first subscribed, and those still to be subscribed.
pub struct Session {
    subscribed: Vec<String>,
    pending: Vec<String>,
}

impl Session {
    pub closed spec fn subscribed(&self) -> Seq<Seq<char>> {
        texts_view(self.subscribed@)
    }

    pub closed spec fn pending(&self) -> Seq<Seq<char>> {
        texts_view(self.pending@)
    }

    /// No channel is listed twice.
    pub open spec fn wf(&self) -> bool {
        self.subscribed().no_duplicates()
    }

    /// A session that is to subscribe to `channels`.
    pub fn new(channels: Vec<String>) -> (r: Session)
        ensures
            r.wf(),
            r.subscribed() == Seq::<Seq<char>>::empty(),
            r.pending() == texts_view(channels@),
    {
        let r = Session { subscribed: Vec::new(), pending: channels };
        assert(r.subscribed() =~= Seq::<Seq<char>>::empty());
        r
    }

    /// The channels listened to.
    pub fn subscribed_channels(&self) -> (r: &Vec<String>)
        ensures
            texts_view(r@) == self.subscribed(),
    {
        &self.subscribed
    }

    /// Whether `channel` is listened to.
    pub fn is_subscribed(&self, channel: &str) -> (r: bool)
        ensures
            r == self.subscribed().contains(channel@),
    {
        let mut i: usize = 0;
        while i < self.subscribed.len()
            invariant
                i <= self.subscribed@.len(),
                forall|j: int| 0 <= j < i ==> (#[trigger] self.subscribed@[j])@ != channel@,
            decreases self.subscribed@.len() - i,
        {
            if same_text(self.subscribed[i].as_str(), channel) {
                assert(self.subscribed()[i as int] == channel@);
                return true;
            }
            i += 1;
        }
        proof {
            if self.subscribed().contains(channel@) {
                let j = choose|j: int| 0 <= j < self.subscribed().len() && self.subscribed()[j] == channel@;
                assert(self.subscribed@[j]@ == channel@);
            }
        }
        false
    }

    /// Hands over the channels still to be subscribed, leaving none.
    pub fn take_pending(&mut self) -> (r: Vec<String>)
        requires
            old(self).wf(),
        ensures
            final(self).wf(),
            texts_view(r@) == old(self).pending(),
            final(self).pending() == Seq::<Seq<char>>::empty(),
            final(self).subscribed() == old(self).subscribed(),
    {
        let mut r: Vec<String> = Vec::new();
        r.append(&mut self.pending);
        assert(r@ =~= old(self).pending@);
        assert(self.pending() =~= Seq::<Seq<char>>::empty());
        r
    }

    /// Records that `channel` is listened to, and gives its confirmation.
    pub fn add(&mut self, channel: String) -> (r: Frame)
        requires
            old(self).wf(),
        ensures
            final(self).wf(),
            final(self).pending() == old(self).pending(),
            final(self).subscribed() == if old(self).subscribed().contains(channel@) {
                old(self).subscribed()
            } else {
                old(self).subscribed().push(channel@)
            },
            r@ == subscribe_reply(channel@, final(self).subscribed().len()),
    {
        if !self.is_subscribed(channel.as_str()) {
            let ghost before = self.subscribed@;
            let c = channel.clone();
            self.subscribed.push(c);
            assert(self.subscribed@ =~= before.push(c));
            assert(self.subscribed() =~= texts_view(before).push(channel@));
        }
        reply_frame("subscribe", channel.as_str(), self.subscribed.len() as u64)
    }

    /// Stops listening to `channel`, and gives its confirmation.
    pub fn remove(&mut self, channel: &str) -> (r: Frame)
        requires
            old(self).wf(),
        ensures
            final(self).wf(),
            final(self).pending() == old(self).pending(),
            final(self).subscribed() == without(old(self).subscribed(), channel@),
            r@ == unsubscribe_reply(channel@, final(self).subscribed().len()),
    {
        let ghost subs = self.subscribed();
        let mut kept: Vec<String> = Vec::new();
        let mut i: usize = 0;
        while i < self.subscribed.len()
            invariant
                subs == texts_view(self.subscribed@),
                i <= self.subscribed@.len(),
                texts_view(kept@) == without(subs.take(i as int), channel@),
            decreases self.subscribed@.len() - i,
        {
            let ghost before = kept@;
            proof {
                assert(subs.take(i + 1).drop_last() =~= subs.take(i as int));
            }
            if !same_text(self.subscribed[i].as_str(), channel) {
                let c = self.subscribed[i].clone();
                kept.push(c);
                assert(kept@ =~= before.push(c));
                assert(texts_view(kept@) =~= texts_view(before).push(c@));
            }
            i += 1;
        }
        assert(subs.take(i as int) =~= subs);
        self.subscribed = kept;
        proof {
            lemma_without(subs, channel@);
        }
        reply_frame("unsubscribe", channel, self.subscribed.len() as u64)
    }

    /// Answers a command received during the session: `SUBSCRIBE` adds to the
    /// channels still to be subscribed, `UNSUBSCRIBE` stops listening to the
    /// channels it names, or to all when it names none, and any other command
    /// is unknown here.
    pub fn handle_command(&mut self, command: Command) -> (r: Vec<Frame>)
        requires
            old(self).wf(),
        ensures
            final(self).wf(),
            match command@ {
                CommandModel::Subscribe { channels } => final(self).pending() == old(self).pending()
                    + channels && final(self).subscribed() == old(self).subscribed()
                    && r@.len() == 0,
                CommandModel::Unsubscribe { channels } => {
                    let chans = if channels.len() == 0 {
                        old(self).subscribed()
                    } else {
                        channels
                    };
                    &&& final(self).pending() == old(self).pending()
                    &&& final(self).subscribed() == unsubscribe_all(old(self).subscribed(), chans).0
                    &&& frames_view(r@) == unsubscribe_all(old(self).subscribed(), chans).1
                },
                _ => final(self).pending() == old(self).pending() && final(self).subscribed()
                    == old(self).subscribed() && frames_view(r@) == seq![
                    unknown_reply(crate::cmd::name_of(command@)),
                ],
            },
    {
        let ghost cmd_view = command@;
        match command {
            Command::Subscribe(sub) => {
                let mut channels = sub.into_channels();
                let ghost added = texts_view(channels@);
                let ghost before = self.pending@;
                self.pending.append(&mut channels);
                assert(texts_view(self.pending@) =~= texts_view(before) + added);
                Vec::new()
            },
            Command::Unsubscribe(unsub) => {
                let mut chans = unsub.into_channels();
                if chans.len() == 0 {
                    chans = self.subscribed.clone();
                    proof {
                        assert(texts_view(chans@) =~= texts_view(self.subscribed@)) by {
                            assert(chans@.len() == self.subscribed@.len());
                            assert forall|j: int| 0 <= j < chans@.len() implies chans@[j] == self.subscribed@[j] by {
                                assert(vstd::pervasive::cloned(self.subscribed@[j], chans@[j]));
                            }
                        }
                    }
                }
                let ghost all = texts_view(chans@);
                let ghost start = self.subscribed();
                let mut replies: Vec<Frame> = Vec::new();
                let mut i: usize = 0;
                proof {
                    lemma_frames_view(replies@);
                    assert(all.drop_first().len() >= 0);
                    assert(all.subrange(0, all.len() as int) =~= all);
                }
                while i < chans.len()
                    invariant
                        self.wf(),
                        self.pending() == old(self).pending(),
                        all == texts_view(chans@),
                        i <= chans@.len(),
                        unsubscribe_all(start, all) == (
                            unsubscribe_all(self.subscribed(), all.subrange(i as int, all.len() as int)).0,
                            frames_view(replies@) + unsubscribe_all(self.subscribed(), all.subrange(i as int, all.len() as int)).1,
                        ),
                    decreases chans@.len() - i,
                {
                    let ghost rest = all.subrange(i as int, all.len() as int);
                    let ghost before = replies@;
                    assert(rest.drop_first() =~= all.subrange(i + 1, all.len() as int));
                    assert(rest[0] == chans@[i as int]@);
                    let reply = self.remove(chans[i].as_str());
                    replies.push(reply);
                    proof {
                        lemma_frames_view(before);
                        lemma_frames_view(replies@);
                        assert(replies@.drop_last() =~= before);
                        let tail = unsubscribe_all(self.subscribed(), all.subrange(i + 1, all.len() as int)).1;
                        assert(frames_view(replies@) + tail =~= frames_view(before) + (seq![reply@] + tail));
                    }
                    i += 1;
                }
                proof {
                    assert(all.subrange(i as int, all.len() as int) =~= Seq::<Seq<char>>::empty());
                    assert(frames_view(replies@) + Seq::<FrameModel>::empty() =~= frames_view(replies@));
                }
                replies
            },
            other => {
                let unknown = crate::cmd::Unknown::new(other.get_name());
                let mut replies: Vec<Frame> = Vec::new();
                replies.push(unknown.apply());
                proof {
                    lemma_frames_view(replies@);
                    assert(frames_view(replies@) =~= seq![unknown_reply(crate::cmd::name_of(cmd_view))]);
                }
                replies
            },
        }
    }
}

} // verus!
