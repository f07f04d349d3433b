use vstd::prelude::*;

use crate::message::{message_rows, spec_message_rows, Message, RowView};
use crate::strutil::str_to_string;

verus! {

/// The flattened display rows of a message log, oldest first.
pub open spec fn rows_flat(ms: Seq<Message>) -> Seq<RowView>
    decreases ms.len(),
{
    if ms.len() == 0 {
        Seq::empty()
    } else {
        spec_message_rows(ms[0]) + rows_flat(ms.subrange(1, ms.len() as int))
    }
}

/// Flattening distributes over concatenation of message logs.
pub proof fn lemma_rows_flat_concat(a: Seq<Message>, b: Seq<Message>)
    ensures
        rows_flat(a + b) == rows_flat(a) + rows_flat(b),
    decreases a.len(),
{
    if a.len() == 0 {
        assert(a + b =~= b);
        assert(rows_flat(a) + rows_flat(b) =~= rows_flat(b));
    } else {
        let tail = a.subrange(1, a.len() as int);
        assert((a + b).subrange(1, (a + b).len() as int) =~= tail + b);
        lemma_rows_flat_concat(tail, b);
        assert(spec_message_rows(a[0]) + (rows_flat(tail) + rows_flat(b)) =~= (
        spec_message_rows(a[0]) + rows_flat(tail)) + rows_flat(b));
    }
}

/// Extending the prefix by one message appends that message's lines.
pub proof fn lemma_rows_flat_snoc(ms: Seq<Message>, i: int)
    requires
        0 <= i < ms.len(),
    ensures
        rows_flat(ms.subrange(0, i + 1)) == rows_flat(ms.subrange(0, i)) + spec_message_rows(
            ms[i],
        ),
    decreases ms.len(),
{
    lemma_rows_flat_concat(ms.subrange(0, i), ms.subrange(i, i + 1));
    assert(ms.subrange(0, i + 1) =~= ms.subrange(0, i) + ms.subrange(i, i + 1));
    let one = ms.subrange(i, i + 1);
    assert(one[0] == ms[i]);
    assert(one.subrange(1, 1) =~= Seq::<Message>::empty());
    assert(rows_flat(one.subrange(1, 1)) =~= Seq::<RowView>::empty());
    assert(rows_flat(one) =~= spec_message_rows(ms[i]));
}

/// The row count of a message log, clamped at what a `usize` can count.
pub open spec fn eff_total(ms: Seq<Message>) -> nat {
    if rows_flat(ms).len() > usize::MAX {
        usize::MAX as nat
    } else {
        rows_flat(ms).len()
    }
}

/// How far back a viewport of height `h` may scroll over `total` lines: to
/// the oldest line, and not at all when everything already fits.
pub open spec fn scroll_bound(total: nat, h: nat) -> nat {
    if total >= h {
        (total - h) as nat
    } else {
        0
    }
}

/// The scroll offset after paging up: forward by `h` lines, clamped so the
/// viewport never passes the oldest line.
pub open spec fn page_up_spec(view: nat, total: nat, h: nat) -> nat {
    if view + h <= scroll_bound(total, h) {
        (view + h) as nat
    } else {
        scroll_bound(total, h)
    }
}

/// The scroll offset after paging down: back by `h` lines, clamped at the
/// most recent line.
pub open spec fn page_down_spec(view: nat, h: nat) -> nat {
    if view >= h {
        (view - h) as nat
    } else {
        0
    }
}

/// Scroll offsets stay within bounds: paging up lands within the scrollable
/// range no matter where it starts, paging down stays within it whenever it
/// was in it, and growing the log only widens the range.
pub proof fn lemma_scroll_bounds(view: nat, total: nat, bigger: nat, h: nat)
    requires
        total <= bigger,
    ensures
        page_up_spec(view, total, h) <= scroll_bound(total, h),
        view <= scroll_bound(total, h) ==> page_down_spec(view, h) <= scroll_bound(total, h),
        scroll_bound(total, h) <= scroll_bound(bigger, h),
{
}

/// How one ingestion changes a scrollback: a previously seen identity leaves
/// it untouched, a fresh one is appended to the log; the scroll offset never
/// moves, and well-formedness is kept.
pub open spec fn spec_received(b0: BufferedWin, b1: BufferedWin, m: Message) -> bool {
    &&& (b0.wf() ==> b1.wf())
    &&& (b0.spec_seen(m.spec_identity()) ==> b1 == b0)
    &&& (!b0.spec_seen(m.spec_identity()) ==> b1.buf@ == b0.buf@.push(m))
    &&& b1.view == b0.view
}

/// The scrollback window: an append-only message log with identity-keyed
/// deduplication and a backward scroll offset counted in display lines
/// (zero shows the most recent lines).
#[derive(Debug, Clone)]
pub struct BufferedWin {
    pub buf: Vec<Message>,
    pub seen: Vec<String>,
    pub view: usize,
}

impl BufferedWin {
    /// The dedup index mirrors the log: one entry per message, holding its
    /// identity, with no identity listed twice.
    pub open spec fn wf(self) -> bool {
        &&& self.seen@.len() == self.buf@.len()
        &&& forall|i: int|
            0 <= i < self.buf@.len() ==> self.seen@[i]@ == self.buf@[i].spec_identity()
        &&& forall|i: int, j: int|
            0 <= i < j < self.seen@.len() ==> self.seen@[i]@ != self.seen@[j]@
    }

    /// Whether a message with this identity has been seen before.
    pub open spec fn spec_seen(self, id: Seq<char>) -> bool {
        exists|i: int| 0 <= i < self.seen@.len() && self.seen@[i]@ == id
    }

    /// An empty scrollback, showing the most recent lines.
    pub fn new() -> (r: BufferedWin)
        ensures
            r.wf(),
            r.buf@.len() == 0,
            r.view == 0,
    {
        BufferedWin { buf: Vec::new(), seen: Vec::new(), view: 0 }
    }

    /// Whether the dedup index already holds this identity.
    fn knows(&self, id: &String) -> (r: bool)
        ensures
            r == self.spec_seen(id@),
    {
        let mut i: usize = 0;
        while i < self.seen.len()
            invariant
                i <= self.seen@.len(),
                forall|j: int| 0 <= j < i ==> self.seen@[j]@ != id@,
            decreases self.seen@.len() - i,
        {
            if self.seen[i].eq(id) {
                return true;
            }
            i = i + 1;
        }
        false
    }

    /// Ingests a message: appended and indexed if its identity is new, and
    /// silently absorbed if it was delivered before.  A duplicate changes
    /// neither the log, nor its length, nor its display rows.
    pub fn insert(&mut self, message: Message)
        ensures
            spec_received(*old(self), *final(self), message),
            old(self).wf() ==> final(self).wf(),
            old(self).spec_seen(message.spec_identity()) ==> *final(self) == *old(self),
            old(self).spec_seen(message.spec_identity()) ==> final(self).buf@.len() == old(
                self,
            ).buf@.len() && rows_flat(final(self).buf@) == rows_flat(old(self).buf@),
            !old(self).spec_seen(message.spec_identity()) ==> final(self).buf@ == old(
                self,
            ).buf@.push(message),
            final(self).view == old(self).view,
    {
        let id = str_to_string(message.identity());
        if !self.knows(&id) {
            self.buf.push(message);
            self.seen.push(id);
        }
    }

    /// The number of display lines in the log, as far as a `usize` counts.
    pub fn total_lines(&self) -> (r: usize)
        ensures
            r == eff_total(self.buf@),
    {
        let mut total: usize = 0;
        let mut i: usize = 0;
        while i < self.buf.len()
            invariant
                i <= self.buf@.len(),
                total == if rows_flat(self.buf@.subrange(0, i as int)).len() > usize::MAX {
                    usize::MAX as nat
                } else {
                    rows_flat(self.buf@.subrange(0, i as int)).len()
                },
            decreases self.buf@.len() - i,
        {
            let lines = message_rows(&self.buf[i]);
            proof {
                lemma_rows_flat_snoc(self.buf@, i as int);
            }
            if lines.len() > usize::MAX - total {
                total = usize::MAX;
            } else {
                total = total + lines.len();
            }
            i = i + 1;
        }
        proof {
            assert(self.buf@.subrange(0, self.buf@.len() as int) =~= self.buf@);
        }
        total
    }

    /// Scrolls one viewport height towards the oldest line, stopping there.
    pub fn page_up(&mut self, h: usize)
        ensures
            final(self).view == page_up_spec(old(self).view as nat, eff_total(old(self).buf@), h as nat),
            final(self).view <= scroll_bound(eff_total(old(self).buf@), h as nat),
            final(self).buf@ == old(self).buf@,
            final(self).seen@ == old(self).seen@,
    {
        let total = self.total_lines();
        let bound = if total >= h {
            total - h
        } else {
            0
        };
        if self.view > bound || bound - self.view <= h {
            self.view = bound;
        } else {
            self.view = self.view + h;
        }
    }

    /// Scrolls one viewport height towards the most recent line, stopping
    /// at it.
    pub fn page_down(&mut self, h: usize)
        ensures
            final(self).view == page_down_spec(old(self).view as nat, h as nat),
            final(self).view <= old(self).view,
            final(self).buf@ == old(self).buf@,
            final(self).seen@ == old(self).seen@,
    {
        if self.view >= h {
            self.view = self.view - h;
        } else {
            self.view = 0;
        }
    }
}

} // verus!
