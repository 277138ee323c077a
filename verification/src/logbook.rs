//! Log lines kept by the target that produced them.

use crate::text::with_name;
use vstd::prelude::*;

verus! {

/// The lines of one target, in the order in which they arrived.
#[derive(Debug, PartialEq, Eq)]
pub struct LogChannel {
    pub target: String,
    pub lines: Vec<String>,
}

/// What a book holds, as mathematics: for each target that has been heard
/// of, its lines in the order in which they arrived.
pub type Pages = Map<Seq<char>, Seq<Seq<char>>>;

/// The lines that `pages` holds for `target`; none where it holds no such target.
pub open spec fn lines_of(pages: Pages, target: Seq<char>) -> Seq<Seq<char>> {
    if pages.contains_key(target) {
        pages[target]
    } else {
        Seq::empty()
    }
}

/// `pages` with `lines` added at the end of what it holds for `target`.
pub open spec fn with_lines(pages: Pages, target: Seq<char>, lines: Seq<Seq<char>>) -> Pages {
    pages.insert(target, lines_of(pages, target) + lines)
}

/// `pages` followed by `newer`: every target of either, and for each the
/// lines of `pages` followed by those of `newer`.
pub open spec fn merged(pages: Pages, newer: Pages) -> Pages {
    Map::new(
        |target: Seq<char>| pages.contains_key(target) || newer.contains_key(target),
        |target: Seq<char>| lines_of(pages, target) + lines_of(newer, target),
    )
}

/// Whether some channel among `channels` is for `target`.
pub open spec fn has_channel(channels: Seq<LogChannel>, target: Seq<char>) -> bool {
    exists|k: int| 0 <= k < channels.len() && (#[trigger] channels[k]).target@ == target
}

/// The place of a channel for `target` among `channels`.
pub open spec fn channel_of(channels: Seq<LogChannel>, target: Seq<char>) -> int {
    choose|k: int| 0 <= k < channels.len() && (#[trigger] channels[k]).target@ == target
}

/// Whether no two of `channels` are for the same target.
pub open spec fn targets_differ(channels: Seq<LogChannel>) -> bool {
    forall|i: int, j: int|
        0 <= i < j < channels.len() ==> (#[trigger] channels[i]).target@ != (
        #[trigger] channels[j]).target@
}

/// What `channels` hold, by target.
pub open spec fn pages_of(channels: Seq<LogChannel>) -> Pages {
    Map::new(
        |target: Seq<char>| has_channel(channels, target),
        |target: Seq<char>| channels[channel_of(channels, target)].lines.deep_view(),
    )
}

/// The targets of `channels`, in their order.
pub open spec fn targets_of(channels: Seq<LogChannel>) -> Seq<Seq<char>> {
    channels.map_values(|channel: LogChannel| channel.target@)
}

/// `order` with each of `names` that it does not hold yet added at its end,
/// in the order of `names`.
pub open spec fn with_names(order: Seq<Seq<char>>, names: Seq<Seq<char>>) -> Seq<Seq<char>>
    decreases names.len(),
{
    if names.len() == 0 {
        order
    } else {
        with_name(with_names(order, names.drop_last()), names.last())
    }
}

/// The targets of channels are the targets that the channels hold lines for.
pub proof fn lemma_targets_of(channels: Seq<LogChannel>)
    ensures
        forall|target: Seq<char>|
            targets_of(channels).contains(target) <==> pages_of(channels).contains_key(target),
{
    assert forall|target: Seq<char>|
        targets_of(channels).contains(target) <==> pages_of(channels).contains_key(target) by {
        if targets_of(channels).contains(target) {
            let k = choose|k: int|
                0 <= k < targets_of(channels).len() && targets_of(channels)[k] == target;
            assert(channels[k].target@ == target);
        }
        if has_channel(channels, target) {
            let k = channel_of(channels, target);
            assert(targets_of(channels)[k] == target);
        }
    }
}

/// Log lines by target. A target has one channel; the channels stand in the
/// order in which their targets were first heard of.
pub struct LogBook {
    channels: Vec<LogChannel>,
}

impl View for LogBook {
    type V = Pages;

    closed spec fn view(&self) -> Pages {
        pages_of(self.channels@)
    }
}

impl LogBook {
    /// The targets that the book holds lines for, in the order in which they
    /// were first heard of.
    pub closed spec fn targets(&self) -> Seq<Seq<char>> {
        targets_of(self.channels@)
    }

    /// The targets of a book are the keys of what it holds.
    pub proof fn lemma_targets(&self)
        ensures
            forall|target: Seq<char>| self.targets().contains(target) <==> self@.contains_key(target),
    {
        lemma_targets_of(self.channels@);
    }

    #[verifier::type_invariant]
    closed spec fn targets_are_distinct(&self) -> bool {
        targets_differ(self.channels@)
    }

    /// A book without a line.
    pub fn new() -> (book: LogBook)
        ensures
            book@ == Map::<Seq<char>, Seq<Seq<char>>>::empty(),
            book.targets() == Seq::<Seq<char>>::empty(),
    {
        let book = LogBook { channels: Vec::new() };
        assert(book@ =~= Map::<Seq<char>, Seq<Seq<char>>>::empty());
        assert(book.targets() =~= Seq::<Seq<char>>::empty());
        book
    }

    /// The channels, in the order in which their targets were first heard
    /// of. No two are for the same target, and together they hold what the
    /// book holds.
    pub fn channels(&self) -> (channels: &Vec<LogChannel>)
        ensures
            targets_differ(channels@),
            pages_of(channels@) == self@,
            targets_of(channels@) == self.targets(),
    {
        proof {
            use_type_invariant(self);
        }
        &self.channels
    }

    /// The place of the channel for `target`, if there is one.
    fn find(&self, target: &String) -> (found: Option<usize>)
        ensures
            found is Some <==> self@.contains_key(target@),
            found matches Some(at) ==> at < self.channels@.len() && self.channels@[at as int].target@
                == target@ && self@[target@] == self.channels@[at as int].lines.deep_view(),
    {
        proof {
            use_type_invariant(self);
        }
        let mut at: usize = 0;
        while at < self.channels.len()
            invariant
                at <= self.channels.len(),
                targets_differ(self.channels@),
                forall|k: int| 0 <= k < at ==> (#[trigger] self.channels@[k]).target@ != target@,
            decreases self.channels.len() - at,
        {
            if self.channels[at].target == *target {
                assert(self.channels@[at as int].target@ == target@);
                let ghost chosen = channel_of(self.channels@, target@);
                assert(chosen == at) by {
                    if chosen < at {
                        assert(self.channels@[chosen].target@ != self.channels@[at as int].target@);
                    }
                    if chosen > at {
                        assert(self.channels@[at as int].target@ != self.channels@[chosen].target@);
                    }
                }
                return Some(at);
            }
            at += 1;
        }
        None
    }

    /// The lines kept for `target`, if it has been heard of.
    pub fn lines(&self, target: &str) -> (lines: Option<&Vec<String>>)
        ensures
            lines is Some <==> self@.contains_key(target@),
            lines matches Some(kept) ==> kept.deep_view() == self@[target@],
    {
        let key = target.to_owned();
        match self.find(&key) {
            Some(at) => Some(&self.channels[at].lines),
            None => None,
        }
    }

    /// Puts `line` at the end of the lines of `target`. A target that was not
    /// heard of before gets a channel, after the others.
    pub fn append(&mut self, target: &str, line: String)
        ensures
            final(self)@ == with_lines(old(self)@, target@, seq![line@]),
            final(self).targets() == with_name(old(self).targets(), target@),
    {
        let key = target.to_owned();
        let mut lines: Vec<String> = Vec::new();
        lines.push(line);
        assert(lines.deep_view() =~= seq![line@]);
        self.extend(key, lines);
    }

    /// Puts `lines` at the end of the lines of `target`, in their order. A
    /// target that was not heard of before gets a channel, after the others.
    pub fn extend(&mut self, target: String, lines: Vec<String>)
        ensures
            final(self)@ == with_lines(old(self)@, target@, lines.deep_view()),
            final(self).targets() == with_name(old(self).targets(), target@),
    {
        proof {
            use_type_invariant(&*self);
            lemma_targets_of(self.channels@);
        }
        let found = self.find(&target);
        let mut taken = LogBook::new();
        std::mem::swap(self, &mut taken);
        let mut channels = taken.channels;
        let ghost before = channels@;
        let mut lines = lines;
        match found {
            Some(at) => {
                let ghost kept = channels@[at as int].lines.deep_view();
                let ghost added = lines.deep_view();
                channels[at].lines.append(&mut lines);
                proof {
                    assert(channels@[at as int].lines.deep_view() =~= kept + added);
                    lemma_one_channel_grew(before, channels@, at as int);
                    assert(targets_of(channels@) =~= targets_of(before));
                }
            },
            None => {
                channels.push(LogChannel { target, lines });
                proof {
                    assert(lines.deep_view() =~= Seq::<Seq<char>>::empty() + lines.deep_view());
                    lemma_one_channel_more(before, channels@);
                    assert(targets_of(channels@) =~= targets_of(before).push(target@));
                }
            },
        }
        *self = LogBook { channels };
    }

    /// Hands over everything the book holds and leaves it without a line.
    pub fn take(&mut self) -> (taken: LogBook)
        ensures
            taken@ == old(self)@,
            taken.targets() == old(self).targets(),
            final(self)@ == Map::<Seq<char>, Seq<Seq<char>>>::empty(),
            final(self).targets() == Seq::<Seq<char>>::empty(),
    {
        let mut taken = LogBook::new();
        std::mem::swap(self, &mut taken);
        taken
    }

    /// Puts the lines of `newer` behind those that the book holds, target by
    /// target. Targets that the book had not heard of get their channels
    /// after the others, in the order that they have in `newer`.
    pub fn merge(&mut self, newer: LogBook)
        ensures
            final(self)@ == merged(old(self)@, newer@),
            final(self).targets() == with_names(old(self).targets(), newer.targets()),
    {
        proof {
            use_type_invariant(&newer);
        }
        let incoming = newer.channels;
        let ghost arriving = incoming@;
        proof {
            assert(targets_of(arriving.take(0)) =~= Seq::<Seq<char>>::empty());
            assert(arriving.take(0) =~= Seq::<LogChannel>::empty());
            assert(pages_of(arriving.take(0)) =~= Map::<Seq<char>, Seq<Seq<char>>>::empty());
            assert(self@ =~= merged(old(self)@, pages_of(arriving.take(0))));
        }
        for channel in pending: incoming
            invariant
                arriving == pending.seq(),
                targets_differ(arriving),
                self@ == merged(old(self)@, pages_of(arriving.take(pending.index() as int))),
                self.targets() == with_names(
                    old(self).targets(),
                    targets_of(arriving.take(pending.index() as int)),
                ),
        {
            proof {
                let done = arriving.take(pending.index() as int);
                let next = arriving.take(pending.index() as int + 1);
                assert(next.last() == channel);
                assert forall|k: int| 0 <= k < done.len() implies next[k] == done[k] by {}
                assert(!has_channel(done, channel.target@)) by {
                    if has_channel(done, channel.target@) {
                        let k = channel_of(done, channel.target@);
                        assert(arriving[k].target@ != arriving[pending.index() as int].target@);
                    }
                }
                assert(targets_differ(done)) by {
                    assert forall|i: int, j: int| 0 <= i < j < done.len() implies (
                    #[trigger] done[i]).target@ != (#[trigger] done[j]).target@ by {
                        assert(arriving[i].target@ != arriving[j].target@);
                    }
                }
                lemma_one_channel_more(done, next);
                assert(targets_of(next).drop_last() =~= targets_of(done));
                assert(targets_of(next).last() == channel.target@);
                assert(with_lines(
                    merged(old(self)@, pages_of(done)),
                    channel.target@,
                    channel.lines.deep_view(),
                ) =~= merged(old(self)@, pages_of(next)));
            }
            self.extend(channel.target, channel.lines);
        }
        assert(arriving.take(arriving.len() as int) =~= arriving);
    }
}

/// Channels of which one got longer hold what they held, but for its target.
proof fn lemma_one_channel_grew(before: Seq<LogChannel>, after: Seq<LogChannel>, at: int)
    requires
        targets_differ(before),
        0 <= at < before.len(),
        after.len() == before.len(),
        forall|k: int| 0 <= k < before.len() && k != at ==> after[k] == before[k],
        after[at].target@ == before[at].target@,
    ensures
        targets_differ(after),
        pages_of(after) == pages_of(before).insert(
            before[at].target@,
            after[at].lines.deep_view(),
        ),
{
    assert forall|i: int| 0 <= i < before.len() implies (#[trigger] after[i]).target@
        == before[i].target@ by {}
    assert forall|target: Seq<char>| has_channel(after, target) == has_channel(before, target) by {
        if has_channel(after, target) {
            let k = channel_of(after, target);
            assert(before[k].target@ == target);
        }
        if has_channel(before, target) {
            let k = channel_of(before, target);
            assert(after[k].target@ == target);
        }
    }
    let wanted = pages_of(before).insert(before[at].target@, after[at].lines.deep_view());
    assert forall|target: Seq<char>| has_channel(after, target) implies #[trigger] pages_of(
        after,
    )[target] == wanted[target] by {
        let k = channel_of(after, target);
        let j = channel_of(before, target);
        lemma_one_place(after, k, j);
        if k != at {
            assert(after[k] == before[k]);
        } else {
            assert(target == before[at].target@);
        }
    }
    assert(has_channel(before, before[at].target@));
    assert(pages_of(after) =~= wanted);
}

/// Two channels for one target are one channel, where no two channels share a target.
proof fn lemma_one_place(channels: Seq<LogChannel>, one: int, other: int)
    requires
        targets_differ(channels),
        0 <= one < channels.len(),
        0 <= other < channels.len(),
        channels[one].target@ == channels[other].target@,
    ensures
        one == other,
{
    if one < other {
        assert(channels[one].target@ != channels[other].target@);
    }
    if other < one {
        assert(channels[other].target@ != channels[one].target@);
    }
}

/// Channels with one more, for a new target, hold what they held and the new one.
proof fn lemma_one_channel_more(before: Seq<LogChannel>, after: Seq<LogChannel>)
    requires
        targets_differ(before),
        after.len() == before.len() + 1,
        forall|k: int| 0 <= k < before.len() ==> after[k] == before[k],
        !has_channel(before, after.last().target@),
    ensures
        targets_differ(after),
        pages_of(after) == pages_of(before).insert(
            after.last().target@,
            after.last().lines.deep_view(),
        ),
{
    let added = after.last();
    assert forall|i: int, j: int| 0 <= i < j < after.len() implies (#[trigger] after[i]).target@ != (
    #[trigger] after[j]).target@ by {
        if j < before.len() {
            assert(before[i].target@ != before[j].target@);
        } else {
            assert(before[i].target@ != added.target@);
        }
    }
    let wanted = pages_of(before).insert(added.target@, added.lines.deep_view());
    assert forall|target: Seq<char>| has_channel(after, target) == (has_channel(before, target)
        || target == added.target@) by {
        if has_channel(after, target) {
            let k = channel_of(after, target);
            if k < before.len() {
                assert(before[k].target@ == target);
            }
        }
        if has_channel(before, target) {
            let k = channel_of(before, target);
            assert(after[k].target@ == target);
        }
        if target == added.target@ {
            assert(after[after.len() - 1].target@ == target);
        }
    }
    assert forall|target: Seq<char>| has_channel(after, target) implies #[trigger] pages_of(
        after,
    )[target] == wanted[target] by {
        let k = channel_of(after, target);
        if target != added.target@ {
            let j = channel_of(before, target);
            assert(after[j].target@ == target);
            lemma_one_place(after, k, j);
        } else {
            lemma_one_place(after, k, after.len() - 1);
        }
    }
    assert(pages_of(after) =~= wanted);
}

} // verus!
