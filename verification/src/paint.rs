use vstd::prelude::*;

use crate::bars::{TitleBar, WinBar};
use crate::buffer::{rows_flat, BufferedWin};
use crate::input::InputLine;
use crate::message::message_rows;
use crate::strutil::{blank, dec_text, push_char, spaces, usize_to_dec};

verus! {

/// A colour of the paint contract; the sink decides its exact bytes.
#[derive(Clone, Copy, Debug, PartialEq, Eq, Structural)]
pub enum Color {
    Reset,
    White,
    Blue,
    Green,
    Yellow,
}

/// The style of a run of text.
#[derive(Clone, Copy, Debug, PartialEq, Eq, Structural)]
pub struct Style {
    pub fg: Color,
    pub bg: Color,
    pub bold: bool,
}

/// The style bars are painted in.
pub fn bar_style() -> (r: Style)
    ensures
        r == spec_bar_style(),
{
    Style { fg: Color::White, bg: Color::Blue, bold: false }
}

/// The style bars are painted in.
pub open spec fn spec_bar_style() -> Style {
    Style { fg: Color::White, bg: Color::Blue, bold: false }
}

/// The plain style.
pub fn plain_style() -> (r: Style)
    ensures
        r == spec_plain_style(),
{
    Style { fg: Color::Reset, bg: Color::Reset, bold: false }
}

/// The plain style.
pub open spec fn spec_plain_style() -> Style {
    Style { fg: Color::Reset, bg: Color::Reset, bold: false }
}

/// One instruction to the screen sink: position the cursor (column, row),
/// write a styled run of text, or clear the whole region.
pub enum PaintOp {
    Go(u16, u16),
    Run(String, Style),
    Wipe,
}

/// The mathematical form of a paint instruction.
pub ghost enum PaintStep {
    Go(u16, u16),
    Run(Seq<char>, Style),
    Wipe,
}

impl View for PaintOp {
    type V = PaintStep;

    open spec fn view(&self) -> PaintStep {
        match self {
            PaintOp::Go(cx, cy) => PaintStep::Go(*cx, *cy),
            PaintOp::Run(s, st) => PaintStep::Run(s@, *st),
            PaintOp::Wipe => PaintStep::Wipe,
        }
    }
}

impl DeepView for PaintOp {
    type V = PaintStep;

    open spec fn deep_view(&self) -> PaintStep {
        self.view()
    }
}

impl TitleBar {
    /// What the title bar paints into its row: a bar-styled blank row, then
    /// the window name, if one is set, indented by one column.
    pub open spec fn spec_ops(self, x: u16, y: u16, w: u16) -> Seq<PaintStep> {
        let head = seq![
            PaintStep::Go(x, y),
            PaintStep::Run(spaces(w as int), spec_bar_style()),
            PaintStep::Go(x, y),
        ];
        match self.window_name {
            Some(n) => head.push(PaintStep::Run(seq![' '] + n@, spec_bar_style())),
            None => head,
        }
    }

    /// Paints the title bar into its assigned row.
    pub fn paint(&self, x: u16, y: u16, w: u16, out: &mut Vec<PaintOp>)
        ensures
            final(out).deep_view() == old(out).deep_view() + self.spec_ops(x, y, w),
    {
        let ghost g = out.deep_view();
        out.push(PaintOp::Go(x, y));
        out.push(PaintOp::Run(blank(w as usize), bar_style()));
        out.push(PaintOp::Go(x, y));
        match &self.window_name {
            Some(n) => {
                let mut run = String::new();
                push_char(&mut run, ' ');
                run.append(n.as_str());
                out.push(PaintOp::Run(run, bar_style()));
                proof {
                    assert(out.deep_view() =~= g + self.spec_ops(x, y, w));
                }
            },
            None => {
                proof {
                    assert(out.deep_view() =~= g + self.spec_ops(x, y, w));
                }
            },
        }
    }
}

/// The text of one window-bar entry: the current window is shown between
/// dashes, the others between brackets, each with its one-based number.
pub open spec fn spec_entry(index: int, name: Seq<char>, is_current: bool) -> Seq<char> {
    if is_current {
        seq!['-'] + dec_text(index) + seq![':', ' '] + name + seq!['-', ' ']
    } else {
        seq!['['] + dec_text(index) + seq![':', ' '] + name + seq![']', ' ']
    }
}

/// The styled runs of the window list, and the columns they use: windows are
/// walked in order and an entry is kept only while it still fits in the
/// width left; highlighted windows are shown bold.
pub open spec fn spec_win_runs(b: WinBar, i: int, used: int, w: u16) -> (Seq<PaintStep>, int)
    decreases b.windows@.len() - i,
{
    if i < 0 || i >= b.windows@.len() {
        (Seq::empty(), used)
    } else {
        let name = b.windows@[i]@;
        let entry = spec_entry(i + 1, name, b.spec_is_current(name));
        if entry.len() < w - used {
            let style = Style {
                fg: Color::White,
                bg: Color::Blue,
                bold: b.spec_highlighted(name),
            };
            let rest = spec_win_runs(b, i + 1, used + entry.len(), w);
            (seq![PaintStep::Run(entry, style)] + rest.0, rest.1)
        } else {
            spec_win_runs(b, i + 1, used, w)
        }
    }
}

impl WinBar {
    /// What the window bar paints: a bar-styled blank row, the connected
    /// account at the left, and the window list pushed against the right
    /// edge, the current window between dashes and windows with unseen
    /// activity in bold.
    pub open spec fn spec_ops(self, x: u16, y: u16, w: u16) -> Seq<PaintStep> {
        let head = seq![
            PaintStep::Go(x, y),
            PaintStep::Run(spaces(w as int), spec_bar_style()),
            PaintStep::Go(x, y),
        ];
        let with_conn = match self.connection {
            Some(c) => head.push(PaintStep::Run(seq![' '] + c@, spec_bar_style())),
            None => head,
        };
        let runs = spec_win_runs(self, 0, 0, w);
        let start = if runs.1 <= w {
            (w - runs.1) as u16
        } else {
            0
        };
        with_conn.push(PaintStep::Go(crate::view::add_clamp(x, start), y)) + runs.0
    }

    /// Paints the window bar into its assigned row.
    pub fn paint(&self, x: u16, y: u16, w: u16, out: &mut Vec<PaintOp>)
        ensures
            final(out).deep_view() == old(out).deep_view() + self.spec_ops(x, y, w),
    {
        let ghost g = out.deep_view();
        out.push(PaintOp::Go(x, y));
        out.push(PaintOp::Run(blank(w as usize), bar_style()));
        out.push(PaintOp::Go(x, y));
        match &self.connection {
            Some(c) => {
                let mut run = String::new();
                push_char(&mut run, ' ');
                run.append(c.as_str());
                out.push(PaintOp::Run(run, bar_style()));
            },
            None => {},
        }
        let mut runs: Vec<PaintOp> = Vec::new();
        let mut used: u16 = 0;
        let mut i: usize = 0;
        proof {
            assert(runs.deep_view() + spec_win_runs(*self, 0, 0, w).0 =~= spec_win_runs(
                *self,
                0,
                0,
                w,
            ).0);
        }
        while i < self.windows.len()
            invariant
                i <= self.windows@.len(),
                used <= w,
                spec_win_runs(*self, 0, 0, w) == (
                    runs.deep_view() + spec_win_runs(*self, i as int, used as int, w).0,
                    spec_win_runs(*self, i as int, used as int, w).1,
                ),
            decreases self.windows@.len() - i,
        {
            let name = &self.windows[i];
            let is_current = match &self.current_window {
                Some(c) => c.eq(name),
                None => false,
            };
            let mut entry = String::new();
            if is_current {
                push_char(&mut entry, '-');
            } else {
                push_char(&mut entry, '[');
            }
            entry.append(usize_to_dec(i + 1).as_str());
            push_char(&mut entry, ':');
            push_char(&mut entry, ' ');
            entry.append(name.as_str());
            if is_current {
                push_char(&mut entry, '-');
            } else {
                push_char(&mut entry, ']');
            }
            push_char(&mut entry, ' ');
            proof {
                assert(entry@ =~= spec_entry(
                    i as int + 1,
                    self.windows@[i as int]@,
                    self.spec_is_current(self.windows@[i as int]@),
                ));
            }
            let len = entry.as_str().unicode_len();
            if (len as u64) < (w as u64) - (used as u64) {
                let bold = self.is_highlighted(name);
                let style = Style { fg: Color::White, bg: Color::Blue, bold };
                let ghost gruns = runs.deep_view();
                let ghost gused = used as int;
                runs.push(PaintOp::Run(entry, style));
                used = used + (len as u16);
                proof {
                    let cur = spec_win_runs(*self, i as int, gused, w);
                    let tail = spec_win_runs(*self, i as int + 1, used as int, w);
                    assert(cur.0 == seq![
                        PaintStep::Run(
                            spec_entry(
                                i as int + 1,
                                self.windows@[i as int]@,
                                self.spec_is_current(self.windows@[i as int]@),
                            ),
                            style,
                        ),
                    ] + tail.0);
                    assert(runs.deep_view() =~= gruns.push(cur.0[0]));
                    assert(gruns.push(cur.0[0]) + tail.0 =~= gruns + cur.0);
                }
            }
            i = i + 1;
        }
        let start = w - used;
        out.push(PaintOp::Go(crate::view::add_clamp_len(x, start), y));
        let ghost gmid = out.deep_view();
        let mut k: usize = 0;
        proof {
            assert(out.deep_view() =~= gmid + runs.deep_view().subrange(0, 0));
        }
        while k < runs.len()
            invariant
                k <= runs@.len(),
                out.deep_view() == gmid + runs.deep_view().subrange(0, k as int),
            decreases runs@.len() - k,
        {
            let op = match &runs[k] {
                PaintOp::Go(cx, cy) => PaintOp::Go(*cx, *cy),
                PaintOp::Run(s, st) => PaintOp::Run(s.clone(), *st),
                PaintOp::Wipe => PaintOp::Wipe,
            };
            proof {
                assert(op.deep_view() == runs@[k as int].deep_view());
                assert(runs@[k as int].deep_view() == runs.deep_view()[k as int]);
            }
            let ghost gprev = out.deep_view();
            out.push(op);
            proof {
                assert(out.deep_view() =~= gprev.push(op.deep_view()));
                assert(gprev.push(runs.deep_view()[k as int]) =~= gmid + runs.deep_view().subrange(
                    0,
                    k as int + 1,
                ));
            }
            k = k + 1;
        }
        proof {
            assert(runs.deep_view().subrange(0, runs@.len() as int) =~= runs.deep_view());
            assert(out.deep_view() =~= g + self.spec_ops(x, y, w));
        }
    }
}


/// The display rows a scrollback viewport of height `h`, scrolled back by
/// `view` rows, shows of a message log: the window of the flattened rows
/// ending `view` rows before the newest.
pub open spec fn spec_visible(ms: Seq<crate::message::Message>, h: int, view: int) -> Seq<
    crate::message::RowView,
> {
    let flat = rows_flat(ms);
    let end = if flat.len() >= view {
        flat.len() - view
    } else {
        0
    };
    let start = if end >= h {
        end - h
    } else {
        0
    };
    flat.subrange(start as int, end as int)
}

/// The style a sender's name is painted in.
pub fn sender_style() -> (r: Style)
    ensures
        r == spec_sender_style(),
{
    Style { fg: Color::Green, bg: Color::Reset, bold: false }
}

/// The style a sender's name is painted in.
pub open spec fn spec_sender_style() -> Style {
    Style { fg: Color::Green, bg: Color::Reset, bold: false }
}

/// The paint instructions for the rows from index `i` down: each row gets a
/// cursor move, a sender run in the sender's style when it has a head, and
/// its text in the plain style.
pub open spec fn spec_row_ops(
    rows: Seq<crate::message::RowView>,
    x: u16,
    y: u16,
    i: int,
) -> Seq<PaintStep>
    decreases rows.len() - i,
{
    if i < 0 || i >= rows.len() {
        Seq::empty()
    } else {
        let head = seq![PaintStep::Go(x, crate::view::add_clamp(y, i as u16))];
        let runs = if rows[i].head.len() > 0 {
            seq![
                PaintStep::Run(rows[i].head, spec_sender_style()),
                PaintStep::Run(rows[i].text, spec_plain_style()),
            ]
        } else {
            seq![PaintStep::Run(rows[i].text, spec_plain_style())]
        };
        head + runs + spec_row_ops(rows, x, y, i + 1)
    }
}

impl BufferedWin {
    /// What the scrollback paints: its visible rows, one per screen row from
    /// its top-left corner, each sender head in the sender's style.
    pub open spec fn spec_ops(self, x: u16, y: u16, h: u16) -> Seq<PaintStep> {
        spec_row_ops(spec_visible(self.buf@, h as int, self.view as int), x, y, 0)
    }

    /// The flattened display rows of the whole log, oldest first.
    pub fn all_rows(&self) -> (r: Vec<crate::message::DisplayRow>)
        ensures
            r.deep_view() == rows_flat(self.buf@),
    {
        let mut flat: Vec<crate::message::DisplayRow> = Vec::new();
        let mut i: usize = 0;
        proof {
            assert(flat.deep_view() =~= rows_flat(self.buf@.subrange(0, 0)));
        }
        while i < self.buf.len()
            invariant
                i <= self.buf@.len(),
                flat.deep_view() == rows_flat(self.buf@.subrange(0, i as int)),
            decreases self.buf@.len() - i,
        {
            let mut rows = message_rows(&self.buf[i]);
            let ghost gflat = flat.deep_view();
            let ghost grows = rows.deep_view();
            flat.append(&mut rows);
            proof {
                crate::buffer::lemma_rows_flat_snoc(self.buf@, i as int);
                assert(flat.deep_view() =~= gflat + grows);
            }
            i = i + 1;
        }
        proof {
            assert(self.buf@.subrange(0, self.buf@.len() as int) =~= self.buf@);
        }
        flat
    }

    /// Paints the viewport into its assigned rectangle.
    pub fn paint(&self, x: u16, y: u16, h: u16, out: &mut Vec<PaintOp>)
        ensures
            final(out).deep_view() == old(out).deep_view() + self.spec_ops(x, y, h),
    {
        let ghost g = out.deep_view();
        let flat = self.all_rows();
        let total = flat.len();
        let end = if total >= self.view {
            total - self.view
        } else {
            0
        };
        let start = if end >= h as usize {
            end - h as usize
        } else {
            0
        };
        let ghost rows = spec_visible(self.buf@, h as int, self.view as int);
        proof {
            assert(rows =~= flat.deep_view().subrange(start as int, end as int));
        }
        let mut r: usize = 0;
        proof {
            assert(g + spec_row_ops(rows, x, y, 0) =~= out.deep_view() + spec_row_ops(
                rows,
                x,
                y,
                0,
            ));
        }
        while r < end - start
            invariant
                start <= end <= flat@.len(),
                r <= end - start,
                rows == spec_visible(self.buf@, h as int, self.view as int),
                rows == flat.deep_view().subrange(start as int, end as int),
                rows.len() == end - start,
                g + spec_row_ops(rows, x, y, 0) == out.deep_view() + spec_row_ops(
                    rows,
                    x,
                    y,
                    r as int,
                ),
            decreases end - start - r,
        {
            let ghost gout = out.deep_view();
            out.push(PaintOp::Go(x, crate::view::add_clamp_len(y, r as u16)));
            proof {
                assert(out.deep_view() =~= gout.push(
                    PaintStep::Go(x, crate::view::add_clamp(y, r as u16)),
                ));
            }
            let row = &flat[start + r];
            proof {
                assert(row.deep_view() == rows[r as int]);
            }
            if row.head.as_str().unicode_len() > 0 {
                let ghost g1 = out.deep_view();
                out.push(PaintOp::Run(row.head.clone(), sender_style()));
                proof {
                    assert(out.deep_view() =~= g1.push(
                        PaintStep::Run(rows[r as int].head, spec_sender_style()),
                    ));
                }
            }
            let ghost g2 = out.deep_view();
            out.push(PaintOp::Run(row.text.clone(), plain_style()));
            proof {
                assert(out.deep_view() =~= g2.push(
                    PaintStep::Run(rows[r as int].text, spec_plain_style()),
                ));
                let head = seq![PaintStep::Go(x, crate::view::add_clamp(y, r as u16))];
                let runs = if rows[r as int].head.len() > 0 {
                    seq![
                        PaintStep::Run(rows[r as int].head, spec_sender_style()),
                        PaintStep::Run(rows[r as int].text, spec_plain_style()),
                    ]
                } else {
                    seq![PaintStep::Run(rows[r as int].text, spec_plain_style())]
                };
                assert(spec_row_ops(rows, x, y, r as int) == head + runs + spec_row_ops(
                    rows,
                    x,
                    y,
                    r as int + 1,
                ));
                assert(out.deep_view() =~= gout + head + runs);
                assert(gout + spec_row_ops(rows, x, y, r as int) =~= (gout + head + runs)
                    + spec_row_ops(rows, x, y, r as int + 1));
            }
            r = r + 1;
        }
        proof {
            assert(spec_row_ops(rows, x, y, rows.len() as int) =~= Seq::<PaintStep>::empty());
            assert(out.deep_view() + Seq::<PaintStep>::empty() =~= out.deep_view());
            assert(out.deep_view() =~= g + self.spec_ops(x, y, h));
        }
    }
}

/// A count clamped to what a screen column can hold.
pub open spec fn clamp_u16(n: int) -> u16 {
    if n > u16::MAX {
        u16::MAX
    } else if n < 0 {
        0
    } else {
        n as u16
    }
}

/// The text an input line shows: its buffer, or one star per character while
/// a password is being read.
pub open spec fn spec_masked(buf: Seq<char>, password: bool) -> Seq<char>
    decreases buf.len(),
{
    if !password {
        buf
    } else if buf.len() == 0 {
        Seq::empty()
    } else {
        seq!['*'] + spec_masked(buf.subrange(1, buf.len() as int), password)
    }
}

impl InputLine {
    /// What the input line paints: its (possibly masked) text over a cleared
    /// row, the cursor left at the caret's column.
    pub open spec fn spec_ops(self, x: u16, y: u16, w: u16) -> Seq<PaintStep> {
        seq![
            PaintStep::Go(x, y),
            PaintStep::Run(spaces(w as int), spec_plain_style()),
            PaintStep::Go(x, y),
            PaintStep::Run(spec_masked(self.buf@, self.password), spec_plain_style()),
            PaintStep::Go(crate::view::add_clamp(x, clamp_u16(self.cursor as int)), y),
        ]
    }

    /// Paints the input line into its assigned row.
    pub fn paint(&self, x: u16, y: u16, w: u16, out: &mut Vec<PaintOp>)
        ensures
            final(out).deep_view() == old(out).deep_view() + self.spec_ops(x, y, w),
    {
        let ghost g = out.deep_view();
        out.push(PaintOp::Go(x, y));
        out.push(PaintOp::Run(blank(w as usize), plain_style()));
        out.push(PaintOp::Go(x, y));
        let mut text = String::new();
        let mut i: usize = 0;
        while i < self.buf.len()
            invariant
                i <= self.buf@.len(),
                text@ == spec_masked(self.buf@.subrange(0, i as int), self.password),
            decreases self.buf@.len() - i,
        {
            let ghost gtext = text@;
            if self.password {
                push_char(&mut text, '*');
            } else {
                push_char(&mut text, self.buf[i]);
            }
            proof {
                lemma_masked_snoc(self.buf@, i as int, self.password);
                assert(text@ =~= gtext.push(if self.password {
                    '*'
                } else {
                    self.buf@[i as int]
                }));
            }
            i = i + 1;
        }
        proof {
            assert(self.buf@.subrange(0, self.buf@.len() as int) =~= self.buf@);
        }
        out.push(PaintOp::Run(text, plain_style()));
        let cursor_col = if self.cursor <= u16::MAX as usize {
            self.cursor as u16
        } else {
            u16::MAX
        };
        out.push(PaintOp::Go(crate::view::add_clamp_len(x, cursor_col), y));
        proof {
            assert(out.deep_view() =~= g + self.spec_ops(x, y, w));
        }
    }
}

/// Masking one more character appends one more star, or the character.
proof fn lemma_masked_snoc(buf: Seq<char>, i: int, password: bool)
    requires
        0 <= i < buf.len(),
    ensures
        spec_masked(buf.subrange(0, i + 1), password) == spec_masked(
            buf.subrange(0, i),
            password,
        ).push(
            if password {
                '*'
            } else {
                buf[i]
            },
        ),
    decreases i,
{
    if !password {
        assert(buf.subrange(0, i + 1) =~= buf.subrange(0, i).push(buf[i]));
    } else {
        if i == 0 {
            assert(buf.subrange(0, 0) =~= Seq::<char>::empty());
            assert(buf.subrange(0, 1).subrange(1, 1) =~= Seq::<char>::empty());
            assert(spec_masked(Seq::<char>::empty(), password) =~= Seq::<char>::empty());
            assert(spec_masked(buf.subrange(0, 1), password) == seq!['*'] + spec_masked(
                Seq::<char>::empty(),
                password,
            ));
            assert(spec_masked(buf.subrange(0, 1), password) =~= seq!['*']);
            assert(spec_masked(buf.subrange(0, 0), password) =~= Seq::<char>::empty());
            assert(Seq::<char>::empty().push('*') =~= seq!['*']);
        } else {
            lemma_masked_snoc(buf.subrange(1, buf.len() as int), i - 1, password);
            let a = buf.subrange(0, i + 1);
            let b = buf.subrange(0, i);
            assert(a.subrange(1, a.len() as int) =~= buf.subrange(1, buf.len() as int).subrange(
                0,
                i,
            ));
            assert(b.subrange(1, b.len() as int) =~= buf.subrange(1, buf.len() as int).subrange(
                0,
                i - 1,
            ));
            assert(seq!['*'] + spec_masked(
                buf.subrange(1, buf.len() as int).subrange(0, i - 1),
                password,
            ).push('*') =~= (seq!['*'] + spec_masked(
                buf.subrange(1, buf.len() as int).subrange(0, i - 1),
                password,
            )).push('*'));
        }
    }
}


/// What a whole tree paints: each leaf paints itself at its assigned
/// geometry, a frame paints its child, and a row paints its children in
/// order.
pub open spec fn spec_node_ops(t: crate::view::VNode) -> Seq<PaintStep>
    decreases t,
{
    match t.kind {
        crate::view::VKind::Title(tb) => tb.spec_ops(t.x, t.y, t.w),
        crate::view::VKind::Bar(wb) => wb.spec_ops(t.x, t.y, t.w),
        crate::view::VKind::Buffer(bw) => bw.spec_ops(t.x, t.y, t.h),
        crate::view::VKind::Entry(il) => il.spec_ops(t.x, t.y, t.w),
        crate::view::VKind::Row { horiz, kids } => spec_kids_ops(kids),
        crate::view::VKind::Shell { kids } => if kids.len() > 0 {
            spec_node_ops(kids[0])
        } else {
            Seq::empty()
        },
    }
}

/// What a child list paints, child by child.
pub open spec fn spec_kids_ops(kids: Seq<crate::view::VNode>) -> Seq<PaintStep>
    decreases kids,
{
    if kids.len() == 0 {
        Seq::empty()
    } else {
        spec_node_ops(kids[0]) + spec_kids_ops(kids.subrange(1, kids.len() as int))
    }
}

impl crate::view::ViewNode {
    /// Third step of the view protocol: appends what this view and its
    /// descendants paint, given their current state and geometry.  The same
    /// state paints the same instructions, however often it is repainted.
    #[verifier::loop_isolation(false)]
    pub fn redraw(&self, out: &mut Vec<PaintOp>)
        ensures
            final(out).deep_view() == old(out).deep_view() + spec_node_ops(self.tree()),
        decreases *self,
    {
        let ghost g = out.deep_view();
        match &self.content {
            crate::view::Content::Title(tb) => {
                tb.paint(self.x, self.y, self.w, out);
            },
            crate::view::Content::Bar(wb) => {
                wb.paint(self.x, self.y, self.w, out);
            },
            crate::view::Content::Buffer(bw) => {
                bw.paint(self.x, self.y, self.h, out);
            },
            crate::view::Content::Entry(il) => {
                il.paint(self.x, self.y, self.w, out);
            },
            crate::view::Content::Shell(f) => {
                match &f.child {
                    Some(c) => {
                        proof {
                            assert(decreases_to!(*self => *self.content->Shell_0.child->Some_0))
                                by {
                                let gc = self.content;
                                let gf = gc->Shell_0;
                                assert(decreases_to!(*self => gc));
                                assert(decreases_to!(gc => gf));
                                assert(decreases_to!(gf => gf.child));
                                assert(decreases_to!(gf.child => gf.child->Some_0));
                            }
                        }
                        c.redraw(out);
                    },
                    None => {
                        proof {
                            assert(out.deep_view() =~= g + spec_node_ops(self.tree()));
                        }
                    },
                }
            },
            crate::view::Content::Lin(l) => {
                let ghost gkids = crate::view::trees_of(l.children@);
                proof {
                    crate::view::lemma_trees_of(l.children@);
                    assert(gkids.subrange(0, gkids.len() as int) =~= gkids);
                    assert(out.deep_view() + spec_kids_ops(gkids) =~= g + spec_kids_ops(gkids));
                }
                let mut i: usize = 0;
                while i < l.children.len()
                    invariant
                        i <= l.children@.len(),
                        g + spec_kids_ops(gkids) == out.deep_view() + spec_kids_ops(
                            gkids.subrange(i as int, gkids.len() as int),
                        ),
                    decreases l.children@.len() - i,
                {
                    proof {
                        let gc = self.content;
                        let gl = gc->Lin_0;
                        assert(decreases_to!(*self => gc));
                        assert(decreases_to!(gc => gl));
                        assert(decreases_to!(gl => gl.children));
                        assert(decreases_to!(gl.children => gl.children[i as int]));
                        let rest = gkids.subrange(i as int, gkids.len() as int);
                        assert(rest[0] == gkids[i as int]);
                        assert(rest.subrange(1, rest.len() as int) =~= gkids.subrange(
                            i as int + 1,
                            gkids.len() as int,
                        ));
                    }
                    let ghost gmid = out.deep_view();
                    l.children[i].redraw(out);
                    proof {
                        assert(gmid + (spec_node_ops(gkids[i as int]) + spec_kids_ops(
                            gkids.subrange(i as int + 1, gkids.len() as int),
                        )) =~= (gmid + spec_node_ops(gkids[i as int])) + spec_kids_ops(
                            gkids.subrange(i as int + 1, gkids.len() as int),
                        ));
                    }
                    i = i + 1;
                }
                proof {
                    assert(spec_kids_ops(gkids.subrange(gkids.len() as int, gkids.len() as int))
                        =~= Seq::<PaintStep>::empty());
                    assert(out.deep_view() + Seq::<PaintStep>::empty() =~= out.deep_view());
                }
            },
        }
    }
}

} // verus!
