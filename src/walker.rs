//! The structure walker: a state machine over the tagged records of the
//! structure block that reports nodes, properties and problems as events.
use vstd::prelude::*;
use crate::bytes::{align4, bounded_len, next_four_byte_align, read_big_endian, strnlen, MAX_STR_LEN};
use crate::tree::{word_at, DeviceTree, FdtError};

verus! {

/// Tag that opens a node; the node's name follows it.
pub const FDT_BEGIN_NODE: u32 = 0x0000_0001;
/// Tag that closes the innermost open node.
pub const FDT_END_NODE: u32 = 0x0000_0002;
/// Tag of a property: a data length and a name offset follow it, then the data.
pub const FDT_PROP: u32 = 0x0000_0003;
/// Tag that stands for nothing.
pub const FDT_NOP: u32 = 0x0000_0004;
/// Tag that ends the structure block.
pub const FDT_END: u32 = 0x0000_0009;

/// Size of a tag, and of each word that follows a property tag.
pub const FDT_TAG_SIZE: u64 = 4;

/// Bound on the walker's cursor: a structure block ends below 2^33, and one step
/// moves at most a tag, two words and 2^32 bytes of data further.
pub const CURSOR_LIMIT: u64 = 0x4_0000_0000;

/// A range of bytes of the blob.
#[derive(Debug, Clone, Copy, PartialEq, Eq, Structural)]
pub struct Span {
    pub start: usize,
    pub len: usize,
}

impl Span {
    /// The range lies within a blob of `len` bytes.
    pub open spec fn within(&self, len: int) -> bool {
        self.start + self.len <= len
    }
}

/// What the walker reports.
#[derive(Debug, Clone, Copy, PartialEq, Eq, Structural)]
pub enum Event {
    /// A node opens; `name` is its name in the blob.
    NodeStart { name: Span },
    /// The innermost open node closes.
    NodeEnd,
    /// A property of the innermost open node: its name in the strings block and its data.
    Property { name: Span, data: Span },
    /// The end tag was reached; the walk is complete.
    End,
    /// The walk stopped on a problem.
    Diagnostic(FdtError),
}

impl Event {
    /// The ranges that the event names lie within a blob of `len` bytes.
    pub open spec fn within(&self, len: int) -> bool {
        match *self {
            Event::NodeStart { name } => name.within(len),
            Event::Property { name, data } => name.within(len) && data.within(len),
            _ => true,
        }
    }
}

impl<'a> DeviceTree<'a> {
    /// Where the structure block ends.
    pub open spec fn structure_end(&self) -> int {
        self.structure_offset + self.structure_size
    }

    /// The events of a full walk of the structure block.
    pub open spec fn walk_events(&self) -> Seq<Event> {
        events_from(*self, self.structure_offset as int, 0)
    }
}

/// One step of the walk at cursor `c` and depth `d`: the event it reports, if
/// any, the next cursor and depth, and whether the walk stops there.
pub open spec fn walk_step(t: DeviceTree, c: int, d: int) -> (Option<Event>, int, int, bool) {
    let blob = t.base@;
    if c >= t.structure_end() {
        (Some(Event::Diagnostic(FdtError::MissingEndTag)), c, d, true)
    } else if c + 4 > blob.len() {
        (Some(Event::Diagnostic(FdtError::Truncated)), c, d, true)
    } else {
        let tag = word_at(blob, c);
        if tag == FDT_BEGIN_NODE {
            match bounded_len(blob, c + 4, MAX_STR_LEN as int) {
                Some(n) => (
                    Some(Event::NodeStart { name: Span { start: (c + 4) as usize, len: n as usize } }),
                    c + 4 + align4(n + 1),
                    d + 1,
                    false,
                ),
                None => (Some(Event::Diagnostic(FdtError::InvalidNodeName)), c, d, true),
            }
        } else if tag == FDT_END_NODE {
            if d > 0 {
                (Some(Event::NodeEnd), c + 4, d - 1, false)
            } else {
                (Some(Event::Diagnostic(FdtError::InvalidNesting)), c, d, true)
            }
        } else if tag == FDT_PROP {
            if c + 12 > blob.len() {
                (Some(Event::Diagnostic(FdtError::Truncated)), c, d, true)
            } else {
                let size = word_at(blob, c + 4) as int;
                let name_offset = word_at(blob, c + 8) as int;
                match t.string_len(name_offset) {
                    None => (
                        Some(Event::Diagnostic(FdtError::MalformedStringTableEntry)),
                        c,
                        d,
                        true,
                    ),
                    Some(n) => if c + 12 + size > blob.len() {
                        (Some(Event::Diagnostic(FdtError::Truncated)), c, d, true)
                    } else {
                        (
                            Some(
                                Event::Property {
                                    name: Span {
                                        start: t.string_start(name_offset) as usize,
                                        len: n as usize,
                                    },
                                    data: Span { start: (c + 12) as usize, len: size as usize },
                                },
                            ),
                            c + 12 + align4(size),
                            d,
                            false,
                        )
                    },
                }
            }
        } else if tag == FDT_NOP {
            (None, c + 4, d, false)
        } else if tag == FDT_END {
            (Some(Event::End), c, d, true)
        } else {
            (Some(Event::Diagnostic(FdtError::UnknownTag(tag as u32))), c, d, true)
        }
    }
}

/// The events of a walk that starts at cursor `c` and depth `d`.
pub open spec fn events_from(t: DeviceTree, c: int, d: int) -> Seq<Event>
    decreases t.structure_end() - c,
{
    if c >= t.structure_end() {
        seq![Event::Diagnostic(FdtError::MissingEndTag)]
    } else {
        let step = walk_step(t, c, d);
        let here = match step.0 {
            Some(ev) => seq![ev],
            None => Seq::empty(),
        };
        // A step that goes on always moves the cursor forward; the second test
        // only makes that evident to the termination check. A cursor at or past
        // the end of the block is the missing end tag, as in the first branch.
        if step.3 || step.1 <= c {
            here
        } else if step.1 >= t.structure_end() {
            here.push(Event::Diagnostic(FdtError::MissingEndTag))
        } else {
            here + events_from(t, step.1, step.2)
        }
    }
}

/// A walk in progress over the structure block of one descriptor. A new walker
/// starts the walk again from the beginning.
pub struct Walker<'a> {
    tree: DeviceTree<'a>,
    cursor: u64,
    depth: usize,
    done: bool,
}

impl<'a> Walker<'a> {
    /// The descriptor whose structure block is walked.
    pub closed spec fn tree(&self) -> DeviceTree<'a> {
        self.tree
    }

    /// Offset in the blob of the next record.
    pub closed spec fn cursor(&self) -> int {
        self.cursor as int
    }

    /// Number of nodes open at this point of the walk.
    pub closed spec fn spec_depth(&self) -> int {
        self.depth as int
    }

    /// The walk has stopped.
    pub closed spec fn is_done(&self) -> bool {
        self.done
    }

    /// The cursor stays below its bound, and each open node accounts for at
    /// least eight bytes before the cursor.
    pub closed spec fn wf(&self) -> bool {
        &&& self.cursor < CURSOR_LIMIT
        &&& self.depth * 8 <= self.cursor
    }

    /// The events that this walk has still to report.
    pub open spec fn remaining(&self) -> Seq<Event> {
        if self.is_done() {
            Seq::empty()
        } else {
            events_from(self.tree(), self.cursor(), self.spec_depth())
        }
    }

    /// A walk of the structure block of `tree` from its beginning.
    pub fn new(tree: DeviceTree<'a>) -> (r: Self)
        ensures
            r.wf(),
            r.tree() == tree,
            r.spec_depth() == 0,
            r.remaining() == tree.walk_events(),
    {
        Walker { tree, cursor: tree.structure_offset as u64, depth: 0, done: false }
    }

    /// Number of nodes open at this point of the walk.
    pub fn depth(&self) -> (r: usize)
        ensures
            r == self.spec_depth(),
    {
        self.depth
    }

    /// Carries out one step of the walk.
    fn step(&mut self) -> (r: Option<Event>)
        requires
            old(self).wf(),
            !old(self).is_done(),
        ensures
            final(self).wf(),
            final(self).tree() == old(self).tree(),
            ({
                let step = walk_step(old(self).tree(), old(self).cursor(), old(self).spec_depth());
                &&& r == step.0
                &&& final(self).is_done() == step.3
                &&& final(self).cursor() == (if step.3 { old(self).cursor() } else { step.1 })
                &&& final(self).spec_depth() == step.2
                &&& !step.3 ==> old(self).cursor() < step.1
            }),
            r matches Some(e) ==> e.within(old(self).tree().base@.len() as int),
    {
        let blob = self.tree.base;
        let len = blob.len();
        let c = self.cursor;
        let end: u64 = self.tree.structure_offset as u64 + self.tree.structure_size as u64;
        if c >= end {
            self.done = true;
            return Some(Event::Diagnostic(FdtError::MissingEndTag));
        }
        if c + FDT_TAG_SIZE > len as u64 {
            self.done = true;
            return Some(Event::Diagnostic(FdtError::Truncated));
        }
        let at = c as usize;
        let tag = read_big_endian(blob, at);
        if tag == FDT_BEGIN_NODE {
            match strnlen(blob, at + 4, MAX_STR_LEN) {
                Some(n) => {
                    let adv = next_four_byte_align(n + 1);
                    self.cursor = c + FDT_TAG_SIZE + adv as u64;
                    self.depth = self.depth + 1;
                    Some(Event::NodeStart { name: Span { start: at + 4, len: n } })
                },
                None => {
                    self.done = true;
                    Some(Event::Diagnostic(FdtError::InvalidNodeName))
                },
            }
        } else if tag == FDT_END_NODE {
            if self.depth > 0 {
                self.depth = self.depth - 1;
                self.cursor = c + FDT_TAG_SIZE;
                Some(Event::NodeEnd)
            } else {
                self.done = true;
                Some(Event::Diagnostic(FdtError::InvalidNesting))
            }
        } else if tag == FDT_PROP {
            if c + 3 * FDT_TAG_SIZE > len as u64 {
                self.done = true;
                return Some(Event::Diagnostic(FdtError::Truncated));
            }
            let size = read_big_endian(blob, at + 4);
            let name_offset = read_big_endian(blob, at + 8);
            match self.tree.string_len_at(name_offset) {
                None => {
                    self.done = true;
                    Some(Event::Diagnostic(FdtError::MalformedStringTableEntry))
                },
                Some(n) => {
                    if c + 3 * FDT_TAG_SIZE + size as u64 > len as u64 {
                        self.done = true;
                        return Some(Event::Diagnostic(FdtError::Truncated));
                    }
                    let name_start = self.tree.strings_offset as usize + name_offset as usize;
                    let adv = next_four_byte_align(size as usize);
                    self.cursor = c + 3 * FDT_TAG_SIZE + adv as u64;
                    Some(
                        Event::Property {
                            name: Span { start: name_start, len: n },
                            data: Span { start: at + 12, len: size as usize },
                        },
                    )
                },
            }
        } else if tag == FDT_NOP {
            self.cursor = c + FDT_TAG_SIZE;
            None
        } else if tag == FDT_END {
            self.done = true;
            Some(Event::End)
        } else {
            self.done = true;
            Some(Event::Diagnostic(FdtError::UnknownTag(tag)))
        }
    }

    /// The next event of the walk, or `None` once the walk has stopped.
    /// Depth goes up by one at a node start and down by one at a node end.
    pub fn next_event(&mut self) -> (r: Option<Event>)
        requires
            old(self).wf(),
        ensures
            final(self).wf(),
            final(self).tree() == old(self).tree(),
            old(self).remaining().len() == 0 ==> r.is_none() && final(self).remaining().len() == 0,
            old(self).remaining().len() > 0 ==> {
                &&& r == Some(old(self).remaining()[0])
                &&& final(self).remaining() == old(self).remaining().drop_first()
            },
            r matches Some(e) ==> e.within(old(self).tree().base@.len() as int),
            final(self).spec_depth() == match r {
                Some(Event::NodeStart { .. }) => old(self).spec_depth() + 1,
                Some(Event::NodeEnd) => old(self).spec_depth() - 1,
                _ => old(self).spec_depth(),
            },
    {
        if self.done {
            return None;
        }
        proof {
            lemma_events_nonempty(self.tree, self.cursor as int, self.depth as int);
        }
        loop
            invariant
                self.wf(),
                !self.is_done(),
                self.tree() == old(self).tree(),
                self.remaining() == old(self).remaining(),
                self.spec_depth() == old(self).spec_depth(),
            decreases CURSOR_LIMIT - self.cursor,
        {
            let e = self.step();
            proof {
                reveal_with_fuel(events_from, 2);
            }
            if e.is_some() {
                return e;
            }
        }
    }
}

impl<'a> DeviceTree<'a> {
    /// A walker over the structure block, at its beginning.
    pub fn walker(&self) -> (r: Walker<'a>)
        ensures
            r.wf(),
            r.tree() == *self,
            r.spec_depth() == 0,
            r.remaining() == self.walk_events(),
    {
        Walker::new(*self)
    }

    /// All events of a walk of the structure block, in order.
    pub fn events(&self) -> (r: Vec<Event>)
        ensures
            r@ == self.walk_events(),
    {
        let mut w = self.walker();
        let mut out: Vec<Event> = Vec::new();
        loop
            invariant
                w.wf(),
                out@ + w.remaining() == self.walk_events(),
            decreases w.remaining().len(),
        {
            match w.next_event() {
                Some(e) => {
                    proof {
                        assert(out@.push(e) + w.remaining() =~= self.walk_events());
                    }
                    out.push(e);
                },
                None => {
                    proof {
                        assert(out@ =~= self.walk_events());
                    }
                    return out;
                },
            }
        }
    }
}

/// Every walk reports at least one event: it stops only on one.
proof fn lemma_events_nonempty(t: DeviceTree, c: int, d: int)
    ensures
        events_from(t, c, d).len() > 0,
    decreases t.structure_end() - c,
{
    if c < t.structure_end() {
        let step = walk_step(t, c, d);
        if !step.3 && step.1 > c && step.1 < t.structure_end() {
            lemma_events_nonempty(t, step.1, step.2);
        }
    }
}

/// How an event changes the number of open nodes.
pub open spec fn nesting_change(e: Event) -> int {
    match e {
        Event::NodeStart { .. } => 1,
        Event::NodeEnd => -1,
        _ => 0,
    }
}

/// Node starts minus node ends among `evs`.
pub open spec fn nesting(evs: Seq<Event>) -> int
    decreases evs.len(),
{
    if evs.len() == 0 {
        0
    } else {
        nesting(evs.drop_last()) + nesting_change(evs.last())
    }
}

proof fn lemma_nesting_concat(a: Seq<Event>, b: Seq<Event>)
    ensures
        nesting(a + b) == nesting(a) + nesting(b),
    decreases b.len(),
{
    if b.len() > 0 {
        assert((a + b).drop_last() =~= a + b.drop_last());
        lemma_nesting_concat(a, b.drop_last());
    } else {
        assert(a + b =~= a);
    }
}

proof fn lemma_nesting_single(e: Event)
    ensures
        nesting(seq![e]) == nesting_change(e),
{
    assert(seq![e].drop_last() =~= Seq::<Event>::empty());
    assert(nesting(Seq::<Event>::empty()) == 0);
    assert(seq![e].last() == e);
}

proof fn lemma_step_depth(t: DeviceTree, c: int, d: int)
    requires
        d >= 0,
    ensures
        ({
            let step = walk_step(t, c, d);
            &&& step.2 == d + match step.0 {
                Some(e) => nesting_change(e),
                None => 0,
            }
            &&& step.2 >= 0
            &&& step.0 == Some(Event::NodeEnd) ==> d > 0
            &&& step.0 == Some(Event::Diagnostic(FdtError::InvalidNesting)) ==> d == 0
        }),
{
}

/// The depth before the event at `i` of a walk that started at depth `d`.
pub open spec fn depth_before(evs: Seq<Event>, d: int, i: int) -> int {
    d + nesting(evs.take(i))
}

/// Depth is tracked exactly along a walk that starts at depth `d`: before each
/// event it is `d` plus the node starts minus the node ends reported so far, and
/// it never goes below zero. A node end is reported only at positive depth, so
/// the depth comes back to `d` exactly at the node end that matches the first
/// node start; invalid nesting is reported only at depth zero.
pub proof fn lemma_nesting_tracked(t: DeviceTree, c: int, d: int)
    requires
        d >= 0,
    ensures
        ({
            let evs = events_from(t, c, d);
            &&& forall|i: int| 0 <= i <= evs.len() ==> depth_before(evs, d, i) >= 0
            &&& forall|i: int|
                0 <= i < evs.len() && evs[i] == Event::NodeEnd ==> depth_before(evs, d, i) > 0
            &&& forall|i: int|
                0 <= i < evs.len() && evs[i] == Event::Diagnostic(FdtError::InvalidNesting)
                    ==> depth_before(evs, d, i) == 0
        }),
    decreases t.structure_end() - c,
{
    let evs = events_from(t, c, d);
    let missing = Event::Diagnostic(FdtError::MissingEndTag);
    lemma_nesting_single(missing);
    assert(nesting(Seq::<Event>::empty()) == 0);
    if c >= t.structure_end() {
        assert(evs.take(0) =~= Seq::<Event>::empty());
        assert(evs.take(1) =~= evs);
        return;
    }
    let step = walk_step(t, c, d);
    lemma_step_depth(t, c, d);
    let here: Seq<Event> = match step.0 {
        Some(ev) => seq![ev],
        None => Seq::empty(),
    };
    if let Some(ev) = step.0 {
        lemma_nesting_single(ev);
    }
    let rest: Seq<Event> = if step.3 || step.1 <= c {
        Seq::empty()
    } else if step.1 >= t.structure_end() {
        seq![Event::Diagnostic(FdtError::MissingEndTag)]
    } else {
        events_from(t, step.1, step.2)
    };
    assert(evs =~= here + rest);
    if !(step.3 || step.1 <= c) && step.1 < t.structure_end() {
        lemma_nesting_tracked(t, step.1, step.2);
    }
    assert forall|i: int| 0 <= i <= evs.len() implies {
        &&& #[trigger] depth_before(evs, d, i) >= 0
        &&& (i < evs.len() && evs[i] == Event::NodeEnd ==> depth_before(evs, d, i) > 0)
        &&& (i < evs.len() && evs[i] == Event::Diagnostic(FdtError::InvalidNesting)
            ==> depth_before(evs, d, i) == 0)
    } by {
        if i <= here.len() {
            if i == 0 {
                assert(evs.take(i) =~= Seq::<Event>::empty());
            } else {
                assert(evs.take(i) =~= here);
            }
        } else {
            let j = i - here.len();
            assert(evs.take(i) =~= here + rest.take(j));
            lemma_nesting_concat(here, rest.take(j));
            if step.1 >= t.structure_end() && !(step.3 || step.1 <= c) {
                assert(rest.take(j) =~= rest);
            }
            if i < evs.len() {
                assert(evs[i] == rest[j]);
            }
            if !(step.3 || step.1 <= c) && step.1 < t.structure_end() {
                assert(depth_before(rest, step.2, j) >= 0);
                assert(depth_before(evs, d, i) == depth_before(rest, step.2, j));
            }
        }
    }
}

/// A node end met at depth zero stops the walk with invalid nesting.
pub proof fn lemma_end_node_at_depth_zero(t: DeviceTree, c: int)
    requires
        c < t.structure_end(),
        c + 4 <= t.base@.len(),
        word_at(t.base@, c) == FDT_END_NODE,
    ensures
        events_from(t, c, 0) == seq![Event::Diagnostic(FdtError::InvalidNesting)],
{
}

/// The end tag or a problem: what makes a walk stop.
pub open spec fn is_final_report(e: Event) -> bool {
    e is End || e is Diagnostic
}

/// Every walk stops on exactly one report, its last event: the end tag or one
/// diagnostic. Every event before it is a node start, a node end or a property.
pub proof fn lemma_single_final_report(t: DeviceTree, c: int, d: int)
    ensures
        ({
            let evs = events_from(t, c, d);
            &&& evs.len() > 0
            &&& is_final_report(evs.last())
            &&& forall|i: int| 0 <= i < evs.len() - 1 ==> !is_final_report(#[trigger] evs[i])
        }),
    decreases t.structure_end() - c,
{
    let evs = events_from(t, c, d);
    if c >= t.structure_end() {
        return;
    }
    let step = walk_step(t, c, d);
    let here: Seq<Event> = match step.0 {
        Some(ev) => seq![ev],
        None => Seq::empty(),
    };
    let rest: Seq<Event> = if step.3 || step.1 <= c {
        Seq::empty()
    } else if step.1 >= t.structure_end() {
        seq![Event::Diagnostic(FdtError::MissingEndTag)]
    } else {
        events_from(t, step.1, step.2)
    };
    assert(evs =~= here + rest);
    if !(step.3 || step.1 <= c) && step.1 < t.structure_end() {
        lemma_single_final_report(t, step.1, step.2);
    }
    assert forall|i: int| 0 <= i < evs.len() - 1 implies !is_final_report(#[trigger] evs[i]) by {
        if i >= here.len() {
            assert(evs[i] == rest[i - here.len()]);
        }
    }
}

} // verus!
