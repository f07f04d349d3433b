use vstd::prelude::*;

use crate::bars::{TitleBar, WinBar};
use crate::buffer::BufferedWin;
use crate::input::InputLine;

verus! {

/// Sizing policy of a view node.
#[derive(Clone, Copy, Debug, PartialEq, Eq, Structural)]
pub enum Dimension {
    /// Fill the parent's offered size.
    MatchParent,
    /// Intrinsic size, computed bottom-up; meaningful only on containers.
    /// A leaf carrying it has no children to aggregate and deliberately
    /// resolves to zero -- a handled configuration, never a crash;
    /// `wf_dims` states the discipline that rules it out.
    WrapContent,
    /// Fixed request, clamped to any offered upper bound.
    Absolute(u16),
}

/// The axis a container arranges its children along.
#[derive(Clone, Copy, Debug, PartialEq, Eq, Structural)]
pub enum Orientation {
    Vertical,
    Horizontal,
}

/// An ordered container laying its children out along one axis.
pub struct Linear {
    pub orientation: Orientation,
    pub children: Vec<ViewNode>,
}

/// A container holding at most one child, hot-swappable.
pub struct Frame {
    pub child: Option<Box<ViewNode>>,
}

/// What a view node holds: one of the leaf widgets, or a container.
pub enum Content {
    Title(TitleBar),
    Bar(WinBar),
    Buffer(BufferedWin),
    Entry(InputLine),
    Lin(Linear),
    Shell(Frame),
}

/// A node of the view tree: sizing policies, the geometry assigned by the
/// two-pass protocol (`w`/`h` valid after `measure`, `x`/`y` after `layout`),
/// a dirty flag, and the content.
pub struct ViewNode {
    pub width: Dimension,
    pub height: Dimension,
    pub x: u16,
    pub y: u16,
    pub w: u16,
    pub h: u16,
    pub dirty: bool,
    pub content: Content,
}

/// The mathematical shape of a view node: its policies and geometry, and the
/// kind of node, with leaf payloads abstracted away.
pub ghost struct VNode {
    pub width: Dimension,
    pub height: Dimension,
    pub x: u16,
    pub y: u16,
    pub w: u16,
    pub h: u16,
    pub kind: VKind,
}

/// The kind of a node in the mathematical tree, with the widget payloads.
pub ghost enum VKind {
    Title(TitleBar),
    Bar(WinBar),
    Buffer(BufferedWin),
    Entry(InputLine),
    /// An ordered container with one main axis.
    Row { horiz: bool, kids: Seq<VNode> },
    /// A frame: at most one child.
    Shell { kids: Seq<VNode> },
}

impl ViewNode {
    /// The mathematical tree of this view.
    pub open spec fn tree(self) -> VNode
        decreases self,
    {
        VNode {
            width: self.width,
            height: self.height,
            x: self.x,
            y: self.y,
            w: self.w,
            h: self.h,
            kind: match self.content {
                Content::Lin(l) => VKind::Row {
                    horiz: l.orientation is Horizontal,
                    kids: trees_of(l.children@),
                },
                Content::Shell(f) => VKind::Shell {
                    kids: match f.child {
                        Some(c) => seq![c.tree()],
                        None => Seq::empty(),
                    },
                },
                Content::Title(t) => VKind::Title(t),
                Content::Bar(b) => VKind::Bar(b),
                Content::Buffer(b) => VKind::Buffer(b),
                Content::Entry(e) => VKind::Entry(e),
            },
        }
    }

    /// Leaves never carry `WrapContent`, and a frame does not either: its
    /// size comes from its parent.
    pub open spec fn wf_dims(self) -> bool {
        vn_wf(self.tree())
    }
}

/// Well-formed sizing policies: leaves and frames never carry `WrapContent`.
pub open spec fn vn_wf(t: VNode) -> bool
    decreases t,
{
    match t.kind {
        VKind::Row { horiz, kids } => forall|i: int|
            0 <= i < kids.len() ==> vn_wf(#[trigger] kids[i]),
        VKind::Shell { kids } => !(t.width is WrapContent) && !(t.height is WrapContent) && (
        kids.len() > 0 ==> vn_wf(kids[0])),
        _ => !(t.width is WrapContent) && !(t.height is WrapContent),
    }
}

/// The mathematical trees of a sequence of views.
pub open spec fn trees_of(cs: Seq<ViewNode>) -> Seq<VNode>
    decreases cs,
{
    if cs.len() == 0 {
        Seq::empty()
    } else {
        seq![cs[0].tree()] + trees_of(cs.subrange(1, cs.len() as int))
    }
}

/// `trees_of` maps each view to its tree, in place.
pub proof fn lemma_trees_of(cs: Seq<ViewNode>)
    ensures
        trees_of(cs).len() == cs.len(),
        forall|i: int|
            #![trigger trees_of(cs)[i]]
            #![trigger cs[i].tree()]
            0 <= i < cs.len() ==> trees_of(cs)[i] == cs[i].tree(),
    decreases cs.len(),
{
    if cs.len() > 0 {
        let tail = cs.subrange(1, cs.len() as int);
        lemma_trees_of(tail);
        assert forall|i: int|
            #![trigger trees_of(cs)[i]]
            #![trigger cs[i].tree()]
            0 <= i < cs.len() implies trees_of(cs)[i] == cs[i].tree() by {
            if i > 0 {
                assert(trees_of(cs)[i] == trees_of(tail)[i - 1]);
                assert(tail[i - 1] == cs[i]);
            }
        }
    }
}

/// Addition on sizes, clamped at the largest representable size.
pub open spec fn add_clamp(a: u16, b: u16) -> u16 {
    if a + b > u16::MAX {
        u16::MAX
    } else {
        (a + b) as u16
    }
}

/// Adds two sizes, clamping at the largest representable size.
pub fn add_clamp_len(a: u16, b: u16) -> (r: u16)
    ensures
        r == add_clamp(a, b),
{
    if b > u16::MAX - a {
        u16::MAX
    } else {
        a + b
    }
}

/// How a dimension resolves against an offered size: `MatchParent` adopts
/// the offer (zero when none is made), `Absolute(n)` is clamped to it.
pub open spec fn spec_resolve_dim(d: Dimension, offered: Option<u16>) -> u16 {
    match d {
        Dimension::MatchParent => match offered {
            Some(s) => s,
            None => 0,
        },
        Dimension::WrapContent => 0,
        Dimension::Absolute(n) => match offered {
            Some(s) => if n <= s {
                n
            } else {
                s
            },
            None => n,
        },
    }
}

/// Resolves a leaf dimension against an offered size constraint.
pub fn resolve_dim(d: Dimension, offered: Option<u16>) -> (r: u16)
    ensures
        r == spec_resolve_dim(d, offered),
{
    match d {
        Dimension::MatchParent => match offered {
            Some(s) => s,
            None => 0,
        },
        Dimension::WrapContent => 0,
        Dimension::Absolute(n) => match offered {
            Some(s) => if n <= s {
                n
            } else {
                s
            },
            None => n,
        },
    }
}

/// The sizing policy of a node along one axis.
pub open spec fn dim_of(t: VNode, horiz: bool) -> Dimension {
    if horiz {
        t.width
    } else {
        t.height
    }
}

/// The resolved size of a node along one axis.
pub open spec fn len_of(t: VNode, horiz: bool) -> u16 {
    if horiz {
        t.w
    } else {
        t.h
    }
}

/// The intrinsic size of a node along one axis: what it reports when
/// measured without a constraint.  A fixed node reports its request, a
/// flexible one reports none, and a `WrapContent` container aggregates its
/// children bottom-up.
pub open spec fn intrinsic(t: VNode, horiz: bool) -> Option<u16>
    decreases t,
{
    match dim_of(t, horiz) {
        Dimension::Absolute(n) => Some(n),
        Dimension::MatchParent => None,
        Dimension::WrapContent => match t.kind {
            VKind::Row { horiz: rh, kids } => if rh == horiz {
                Some(sum_intr(kids, horiz))
            } else {
                Some(max_intr(kids, horiz))
            },
            VKind::Shell { kids } => if kids.len() > 0 {
                match intrinsic(kids[0], horiz) {
                    Some(n) => Some(n),
                    None => Some(0),
                }
            } else {
                Some(0)
            },
            _ => Some(0),
        },
    }
}

/// The summed known intrinsic sizes of a child list along one axis.
pub open spec fn sum_intr(kids: Seq<VNode>, horiz: bool) -> u16
    decreases kids,
{
    if kids.len() == 0 {
        0
    } else {
        match intrinsic(kids[0], horiz) {
            Some(n) => add_clamp(n, sum_intr(kids.subrange(1, kids.len() as int), horiz)),
            None => sum_intr(kids.subrange(1, kids.len() as int), horiz),
        }
    }
}

/// The largest known intrinsic size of a child list along one axis.
pub open spec fn max_intr(kids: Seq<VNode>, horiz: bool) -> u16
    decreases kids,
{
    if kids.len() == 0 {
        0
    } else {
        let rest = max_intr(kids.subrange(1, kids.len() as int), horiz);
        match intrinsic(kids[0], horiz) {
            Some(n) => if n > rest {
                n
            } else {
                rest
            },
            None => rest,
        }
    }
}

/// How many children of a child list have no intrinsic size along one axis.
pub open spec fn count_flex(kids: Seq<VNode>, horiz: bool) -> int
    decreases kids,
{
    if kids.len() == 0 {
        0
    } else {
        (if intrinsic(kids[0], horiz) is None {
            1int
        } else {
            0int
        }) + count_flex(kids.subrange(1, kids.len() as int), horiz)
    }
}

/// The intrinsic size of a view along one axis.
pub fn intrinsic_len(v: &ViewNode, horiz: bool) -> (r: Option<u16>)
    ensures
        r == intrinsic(v.tree(), horiz),
    decreases *v,
{
    let d = if horiz {
        v.width
    } else {
        v.height
    };
    match d {
        Dimension::Absolute(n) => Some(n),
        Dimension::MatchParent => None,
        Dimension::WrapContent => match &v.content {
            Content::Lin(l) => {
                let rh = match l.orientation {
                    Orientation::Horizontal => true,
                    Orientation::Vertical => false,
                };
                proof {
                    lemma_trees_of(l.children@);
                }
                if rh == horiz {
                    Some(sum_intrinsic_len(&l.children, horiz))
                } else {
                    Some(max_intrinsic_len(&l.children, horiz))
                }
            },
            Content::Shell(f) => match &f.child {
                Some(c) => match intrinsic_len(c, horiz) {
                    Some(n) => Some(n),
                    None => Some(0),
                },
                None => Some(0),
            },
            _ => Some(0),
        },
    }
}

/// The summed known intrinsic sizes of a view list along one axis.
fn sum_intrinsic_len(children: &Vec<ViewNode>, horiz: bool) -> (r: u16)
    ensures
        r == sum_intr(trees_of(children@), horiz),
    decreases children@,
{
    let ghost gkids = trees_of(children@);
    proof {
        lemma_trees_of(children@);
    }
    let mut acc: u16 = 0;
    let mut i: usize = 0;
    proof {
        assert(gkids.subrange(0, gkids.len() as int) =~= gkids);
    }
    while i < children.len()
        invariant
            i <= children@.len(),
            gkids == trees_of(children@),
            gkids.len() == children@.len(),
            forall|j: int| 0 <= j < children@.len() ==> gkids[j] == #[trigger] children@[j].tree(),
            add_clamp(acc, sum_intr(gkids.subrange(i as int, gkids.len() as int), horiz))
                == sum_intr(gkids, horiz),
        decreases children@.len() - i,
    {
        proof {
            assert(decreases_to!(children@ => children@[i as int]));
        }
        let ins = intrinsic_len(&children[i], horiz);
        proof {
            let rest = gkids.subrange(i as int, gkids.len() as int);
            assert(rest[0] == gkids[i as int]);
            assert(rest.subrange(1, rest.len() as int) =~= gkids.subrange(
                i as int + 1,
                gkids.len() as int,
            ));
        }
        match ins {
            Some(m) => {
                acc = add_clamp_len(acc, m);
            },
            None => {},
        }
        i = i + 1;
    }
    proof {
        assert(gkids.subrange(gkids.len() as int, gkids.len() as int) =~= Seq::<VNode>::empty());
    }
    acc
}

/// The largest known intrinsic size of a view list along one axis.
fn max_intrinsic_len(children: &Vec<ViewNode>, horiz: bool) -> (r: u16)
    ensures
        r == max_intr(trees_of(children@), horiz),
    decreases children@,
{
    let ghost gkids = trees_of(children@);
    proof {
        lemma_trees_of(children@);
    }
    let mut acc: u16 = 0;
    let mut i: usize = 0;
    proof {
        assert(gkids.subrange(0, gkids.len() as int) =~= gkids);
    }
    while i < children.len()
        invariant
            i <= children@.len(),
            gkids == trees_of(children@),
            gkids.len() == children@.len(),
            forall|j: int| 0 <= j < children@.len() ==> gkids[j] == #[trigger] children@[j].tree(),
            max_intr(gkids, horiz) == {
                let rest = max_intr(gkids.subrange(i as int, gkids.len() as int), horiz);
                if acc > rest {
                    acc
                } else {
                    rest
                }
            },
        decreases children@.len() - i,
    {
        proof {
            assert(decreases_to!(children@ => children@[i as int]));
        }
        let ins = intrinsic_len(&children[i], horiz);
        proof {
            let rest = gkids.subrange(i as int, gkids.len() as int);
            assert(rest[0] == gkids[i as int]);
            assert(rest.subrange(1, rest.len() as int) =~= gkids.subrange(
                i as int + 1,
                gkids.len() as int,
            ));
        }
        match ins {
            Some(m) => {
                if m > acc {
                    acc = m;
                }
            },
            None => {},
        }
        i = i + 1;
    }
    proof {
        assert(gkids.subrange(gkids.len() as int, gkids.len() as int) =~= Seq::<VNode>::empty());
    }
    acc
}


/// The even share of leftover main-axis space for each flexible child.
pub open spec fn share_of(remaining: u16, n_flex: int) -> u16 {
    if n_flex > 0 {
        (remaining as int / n_flex) as u16
    } else {
        0
    }
}

/// What is left of an offered extent after `running` of it is used.
pub open spec fn sub_floor(m: u16, running: u16) -> u16 {
    if m > running {
        (m - running) as u16
    } else {
        0
    }
}

/// The resolve pass of a row: measures each child against its intrinsic main
/// size where it has one, else against the flexible share, each offer capped
/// so the running total never exceeds the row's own offer; yields the
/// measured children, the summed main sizes and the largest cross size.
pub open spec fn row_pass(
    kids: Seq<VNode>,
    share: u16,
    main_spec: Option<u16>,
    cross_spec: Option<u16>,
    horiz: bool,
    running: u16,
    crossm: u16,
) -> (Seq<VNode>, u16, u16)
    decreases kids,
{
    if kids.len() == 0 {
        (Seq::empty(), running, crossm)
    } else {
        let base = match intrinsic(kids[0], horiz) {
            Some(n) => n,
            None => share,
        };
        let offered = match main_spec {
            Some(m) => if base < sub_floor(m, running) {
                base
            } else {
                sub_floor(m, running)
            },
            None => base,
        };
        let k2 = if horiz {
            spec_measured(kids[0], Some(offered), cross_spec)
        } else {
            spec_measured(kids[0], cross_spec, Some(offered))
        };
        let r2 = add_clamp(running, len_of(k2, horiz));
        let c2 = if len_of(k2, !horiz) > crossm {
            len_of(k2, !horiz)
        } else {
            crossm
        };
        let rest = row_pass(
            kids.subrange(1, kids.len() as int),
            share,
            main_spec,
            cross_spec,
            horiz,
            r2,
            c2,
        );
        (seq![k2] + rest.0, rest.1, rest.2)
    }
}

/// The measure pass over the mathematical tree: a leaf resolves its policies
/// against the offer, a frame resolves itself and hands its resolved bounds
/// to its child, and a row distributes its main-axis offer over its children
/// in two passes, its own main size being their sum and its cross size their
/// maximum.
pub open spec fn spec_measured(t: VNode, ws: Option<u16>, hs: Option<u16>) -> VNode
    decreases t,
{
    match t.kind {
        VKind::Shell { kids } => {
            let w = spec_resolve_dim(t.width, ws);
            let h = spec_resolve_dim(t.height, hs);
            VNode {
                w,
                h,
                kind: VKind::Shell {
                    kids: if kids.len() > 0 {
                        seq![spec_measured(kids[0], Some(w), Some(h))] + kids.subrange(
                            1,
                            kids.len() as int,
                        )
                    } else {
                        Seq::empty()
                    },
                },
                ..t
            }
        },
        VKind::Row { horiz, kids } => {
            let main_spec = if horiz {
                ws
            } else {
                hs
            };
            let cross_spec = if horiz {
                hs
            } else {
                ws
            };
            let remaining = match main_spec {
                Some(m) => sub_floor(m, sum_intr(kids, horiz)),
                None => 0,
            };
            let share = share_of(remaining, count_flex(kids, horiz));
            let pass = row_pass(kids, share, main_spec, cross_spec, horiz, 0, 0);
            VNode {
                w: if horiz {
                    pass.1
                } else {
                    pass.2
                },
                h: if horiz {
                    pass.2
                } else {
                    pass.1
                },
                kind: VKind::Row { horiz, kids: pass.0 },
                ..t
            }
        },
        _ => VNode {
            w: spec_resolve_dim(t.width, ws),
            h: spec_resolve_dim(t.height, hs),
            ..t
        },
    }
}

/// How many children of a view list have no intrinsic main size.
fn count_flex_len(children: &Vec<ViewNode>, horiz: bool) -> (r: usize)
    ensures
        r == count_flex(trees_of(children@), horiz),
    decreases children@,
{
    let ghost gkids = trees_of(children@);
    proof {
        lemma_trees_of(children@);
        assert(gkids.subrange(0, gkids.len() as int) =~= gkids);
    }
    let mut acc: usize = 0;
    let mut i: usize = 0;
    while i < children.len()
        invariant
            i <= children@.len(),
            gkids == trees_of(children@),
            gkids.len() == children@.len(),
            forall|j: int| 0 <= j < children@.len() ==> gkids[j] == #[trigger] children@[j].tree(),
            acc + count_flex(gkids.subrange(i as int, gkids.len() as int), horiz) == count_flex(
                gkids,
                horiz,
            ),
            acc <= i,
        decreases children@.len() - i,
    {
        proof {
            assert(decreases_to!(children@ => children@[i as int]));
        }
        let ins = intrinsic_len(&children[i], horiz);
        proof {
            let rest = gkids.subrange(i as int, gkids.len() as int);
            assert(rest[0] == gkids[i as int]);
            assert(rest.subrange(1, rest.len() as int) =~= gkids.subrange(
                i as int + 1,
                gkids.len() as int,
            ));
        }
        match ins {
            Some(_) => {},
            None => {
                acc = acc + 1;
            },
        }
        i = i + 1;
    }
    proof {
        assert(gkids.subrange(gkids.len() as int, gkids.len() as int) =~= Seq::<VNode>::empty());
    }
    acc
}

/// Resolves one row's children: measures each against its intrinsic main
/// size or the flexible share, capped by what is left of the row's offer;
/// yields the measured children, their summed main sizes and their largest
/// cross size.
#[verifier::loop_isolation(false)]
fn resolve_row_children(
    children: Vec<ViewNode>,
    share: u16,
    main_spec: Option<u16>,
    cross_spec: Option<u16>,
    horiz: bool,
) -> (r: (Vec<ViewNode>, u16, u16))
    ensures
        trees_of(r.0@) == row_pass(trees_of(children@), share, main_spec, cross_spec, horiz, 0, 0).0,
        r.1 == row_pass(trees_of(children@), share, main_spec, cross_spec, horiz, 0, 0).1,
        r.2 == row_pass(trees_of(children@), share, main_spec, cross_spec, horiz, 0, 0).2,
        r.0@.len() == children@.len(),
    decreases children@, 0int,
{
    let ghost gch = children@;
    let ghost gkids = trees_of(children@);
    proof {
        lemma_trees_of(gch);
    }
    let mut rest = children;
    let mut out: Vec<ViewNode> = Vec::new();
    let mut running: u16 = 0;
    let mut cross: u16 = 0;
    proof {
        assert(rest@ =~= gch.subrange(0, gch.len() as int));
        assert(trees_of(out@) + row_pass(trees_of(rest@), share, main_spec, cross_spec, horiz, running, cross).0
            =~= row_pass(gkids, share, main_spec, cross_spec, horiz, 0, 0).0);
    }
    while rest.len() > 0
        invariant
            out@.len() + rest@.len() == gch.len(),
            rest@ == gch.subrange(out@.len() as int, gch.len() as int),
            row_pass(gkids, share, main_spec, cross_spec, horiz, 0, 0) == (
                trees_of(out@) + row_pass(
                    trees_of(rest@),
                    share,
                    main_spec,
                    cross_spec,
                    horiz,
                    running,
                    cross,
                ).0,
                row_pass(trees_of(rest@), share, main_spec, cross_spec, horiz, running, cross).1,
                row_pass(trees_of(rest@), share, main_spec, cross_spec, horiz, running, cross).2,
            ),
        decreases rest@.len(),
    {
        let ghost grest = rest@;
        let ghost k = out@.len() as int;
        let c = rest.remove(0);
        proof {
            assert(c == gch[k]);
            assert(rest@ =~= grest.subrange(1, grest.len() as int));
            assert(rest@ =~= gch.subrange(k + 1, gch.len() as int));
            assert(decreases_to!(gch => c));
            lemma_trees_of(grest);
            lemma_trees_of(rest@);
            assert(trees_of(grest)[0] == c.tree());
            assert(trees_of(grest).subrange(1, trees_of(grest).len() as int) =~= trees_of(rest@));
        }
        let base = match intrinsic_len(&c, horiz) {
            Some(m) => m,
            None => share,
        };
        let offered: u16 = match main_spec {
            Some(m) => {
                let cap = if m > running {
                    m - running
                } else {
                    0
                };
                if base < cap {
                    base
                } else {
                    cap
                }
            },
            None => base,
        };
        let c2 = if horiz {
            measure_node(c, Some(offered), cross_spec)
        } else {
            measure_node(c, cross_spec, Some(offered))
        };
        let cm = if horiz {
            c2.w
        } else {
            c2.h
        };
        let cc = if horiz {
            c2.h
        } else {
            c2.w
        };
        running = add_clamp_len(running, cm);
        if cc > cross {
            cross = cc;
        }
        let ghost gout = out@;
        out.push(c2);
        proof {
            lemma_trees_of(gout);
            lemma_trees_of(out@);
            assert(trees_of(out@) =~= trees_of(gout).push(c2.tree()));
            let tail = row_pass(trees_of(rest@), share, main_spec, cross_spec, horiz, running, cross);
            assert(trees_of(gout) + (seq![c2.tree()] + tail.0) =~= trees_of(out@) + tail.0);
        }
    }
    proof {
        assert(trees_of(rest@) =~= Seq::<VNode>::empty());
        assert(trees_of(out@) + Seq::<VNode>::empty() =~= trees_of(out@));
    }
    (out, running, cross)
}

/// Measures a row: aggregates the children's intrinsic sizes, splits the
/// leftover main-axis space among the flexible ones, and resolves each child.
#[verifier::loop_isolation(false)]
fn measure_row(v: ViewNode, ws: Option<u16>, hs: Option<u16>) -> (r: ViewNode)
    requires
        v.content is Lin,
    ensures
        r.tree() == spec_measured(v.tree(), ws, hs),
    decreases v, 1int,
{
    let ghost gv = v;
    let ViewNode { width, height, x, y, w: _, h: _, dirty, content } = v;
    match content {
        Content::Lin(l) => {
            let Linear { orientation, children } = l;
            let ghost gch = children@;
            let ghost gkids = trees_of(gch);
            let horiz = match orientation {
                Orientation::Horizontal => true,
                Orientation::Vertical => false,
            };
            let main_spec = if horiz {
                ws
            } else {
                hs
            };
            let cross_spec = if horiz {
                hs
            } else {
                ws
            };
            let min_main = sum_intrinsic_len(&children, horiz);
            let n_flex = count_flex_len(&children, horiz);
            let remaining: u16 = match main_spec {
                Some(m) => if m > min_main {
                    m - min_main
                } else {
                    0
                },
                None => 0,
            };
            let share: u16 = if n_flex > 0 {
                let q = (remaining as usize) / n_flex;
                proof {
                    assert(q <= remaining as usize) by (nonlinear_arith)
                        requires
                            q == (remaining as usize) as int / n_flex as int,
                            n_flex >= 1,
                            remaining >= 0,
                    ;
                }
                q as u16
            } else {
                0
            };
            proof {
                assert(share == share_of(remaining, count_flex(gkids, horiz)));
                assert(decreases_to!(gv => children@)) by {
                    let gc = gv.content;
                    let gl = gc->Lin_0;
                    assert(decreases_to!(gv => gc));
                    assert(decreases_to!(gc => gl));
                    assert(decreases_to!(gl => gl.children));
                    assert(decreases_to!(gl.children => gl.children@));
                }
            }
            let (out, running, cross) = resolve_row_children(
                children,
                share,
                main_spec,
                cross_spec,
                horiz,
            );
            let sw = if horiz {
                running
            } else {
                cross
            };
            let sh = if horiz {
                cross
            } else {
                running
            };
            let r = ViewNode {
                width,
                height,
                x,
                y,
                w: sw,
                h: sh,
                dirty,
                content: Content::Lin(Linear { orientation, children: out }),
            };
            proof {
                assert(r.tree().kind == spec_measured(gv.tree(), ws, hs).kind);
                assert(r.tree() == spec_measured(gv.tree(), ws, hs));
            }
            r
        },
        other => {
            proof {
                assert(false);
            }
            ViewNode { width, height, x, y, w: 0, h: 0, dirty, content: other }
        },
    }
}

/// Measures one view by value: the functional core of the measure pass.
#[verifier::loop_isolation(false)]
fn measure_node(v: ViewNode, ws: Option<u16>, hs: Option<u16>) -> (r: ViewNode)
    ensures
        r.tree() == spec_measured(v.tree(), ws, hs),
    decreases v, 2int,
{
    let is_row = match &v.content {
        Content::Lin(_) => true,
        _ => false,
    };
    if is_row {
        return measure_row(v, ws, hs);
    }
    let ghost gv = v;
    let ViewNode { width, height, x, y, w: _, h: _, dirty, content } = v;
    match content {
        Content::Shell(f) => {
            let w = resolve_dim(width, ws);
            let h = resolve_dim(height, hs);
            let child = match f.child {
                Some(c) => {
                    proof {
                        assert(decreases_to!(gv => *c)) by {
                            let gc = gv.content;
                            let gf = gc->Shell_0;
                            assert(decreases_to!(gv => gc));
                            assert(decreases_to!(gc => gf));
                            assert(decreases_to!(gf => gf.child));
                            assert(decreases_to!(gf.child => gf.child->Some_0));
                            assert(*c == gf.child->Some_0);
                        }
                    }
                    let c2 = measure_node(*c, Some(w), Some(h));
                    Some(Box::new(c2))
                },
                None => None,
            };
            ViewNode { width, height, x, y, w, h, dirty, content: Content::Shell(Frame { child }) }
        },
        leaf => {
            ViewNode {
                width,
                height,
                x,
                y,
                w: resolve_dim(width, ws),
                h: resolve_dim(height, hs),
                dirty,
                content: leaf,
            }
        },
    }
}

impl ViewNode {
    /// First pass of the view protocol: resolves the sizes of this view and
    /// of all its descendants against the offered constraints.  Only
    /// geometry changes: the policies, tree shape and widget payloads stay.
    pub fn measure(&mut self, width_spec: Option<u16>, height_spec: Option<u16>)
        ensures
            final(self).tree() == spec_measured(old(self).tree(), width_spec, height_spec),
    {
        let mut tmp = ViewNode {
            width: Dimension::MatchParent,
            height: Dimension::MatchParent,
            x: 0,
            y: 0,
            w: 0,
            h: 0,
            dirty: false,
            content: Content::Title(crate::bars::TitleBar { window_name: None }),
        };
        core::mem::swap(self, &mut tmp);
        let mut done = measure_node(tmp, width_spec, height_spec);
        core::mem::swap(self, &mut done);
    }
}



/// The layout pass over a row's children: each child is placed at the
/// running main-axis offset and the row's own cross-axis origin, and the
/// offset advances by the child's resolved main size.
pub open spec fn row_place(kids: Seq<VNode>, horiz: bool, top: u16, left: u16) -> Seq<VNode>
    decreases kids,
{
    if kids.len() == 0 {
        Seq::empty()
    } else {
        let k0 = spec_placed(kids[0], top, left);
        let rest = if horiz {
            row_place(
                kids.subrange(1, kids.len() as int),
                horiz,
                top,
                add_clamp(left, kids[0].w),
            )
        } else {
            row_place(
                kids.subrange(1, kids.len() as int),
                horiz,
                add_clamp(top, kids[0].h),
                left,
            )
        };
        seq![k0] + rest
    }
}

/// The layout pass over the mathematical tree: stores the assigned top-left
/// corner at every node; a frame passes its corner to its child, and a row
/// walks its children in order along its main axis.
pub open spec fn spec_placed(t: VNode, top: u16, left: u16) -> VNode
    decreases t,
{
    match t.kind {
        VKind::Row { horiz, kids } => VNode {
            x: left,
            y: top,
            kind: VKind::Row { horiz, kids: row_place(kids, horiz, top, left) },
            ..t
        },
        VKind::Shell { kids } => VNode {
            x: left,
            y: top,
            kind: VKind::Shell {
                kids: if kids.len() > 0 {
                    seq![spec_placed(kids[0], top, left)] + kids.subrange(1, kids.len() as int)
                } else {
                    Seq::empty()
                },
            },
            ..t
        },
        _ => VNode { x: left, y: top, ..t },
    }
}

/// Places one view by value: the functional core of the layout pass.
#[verifier::loop_isolation(false)]
fn place_node(v: ViewNode, top: u16, left: u16) -> (r: ViewNode)
    ensures
        r.tree() == spec_placed(v.tree(), top, left),
    decreases v,
{
    let ghost gv = v;
    let ViewNode { width, height, x: _, y: _, w, h, dirty, content } = v;
    match content {
        Content::Lin(l) => {
            let Linear { orientation, children } = l;
            let ghost gch = children@;
            let ghost gkids = trees_of(gch);
            let horiz = match orientation {
                Orientation::Horizontal => true,
                Orientation::Vertical => false,
            };
            proof {
                lemma_trees_of(gch);
            }
            let mut rest = children;
            let mut out: Vec<ViewNode> = Vec::new();
            let mut ctop: u16 = top;
            let mut cleft: u16 = left;
            proof {
                assert(rest@ =~= gch.subrange(0, gch.len() as int));
                assert(trees_of(out@) + row_place(trees_of(rest@), horiz, ctop, cleft)
                    =~= row_place(gkids, horiz, top, left));
            }
            while rest.len() > 0
                invariant
                    out@.len() + rest@.len() == gch.len(),
                    rest@ == gch.subrange(out@.len() as int, gch.len() as int),
                    row_place(gkids, horiz, top, left) == trees_of(out@) + row_place(
                        trees_of(rest@),
                        horiz,
                        ctop,
                        cleft,
                    ),
                decreases rest@.len(),
            {
                let ghost grest = rest@;
                let ghost k = out@.len() as int;
                let c = rest.remove(0);
                proof {
                    assert(c == gch[k]);
                    assert(rest@ =~= grest.subrange(1, grest.len() as int));
                    assert(rest@ =~= gch.subrange(k + 1, gch.len() as int));
                    assert(decreases_to!(gch => c));
                    lemma_trees_of(grest);
                    lemma_trees_of(rest@);
                    assert(trees_of(grest)[0] == c.tree());
                    assert(trees_of(grest).subrange(1, trees_of(grest).len() as int) =~= trees_of(
                        rest@,
                    ));
                }
                let main = if horiz {
                    c.w
                } else {
                    c.h
                };
                let c2 = place_node(c, ctop, cleft);
                if horiz {
                    cleft = add_clamp_len(cleft, main);
                } else {
                    ctop = add_clamp_len(ctop, main);
                }
                let ghost gout = out@;
                out.push(c2);
                proof {
                    lemma_trees_of(gout);
                    lemma_trees_of(out@);
                    assert(trees_of(out@) =~= trees_of(gout).push(c2.tree()));
                    let tail = row_place(trees_of(rest@), horiz, ctop, cleft);
                    assert(trees_of(gout) + (seq![c2.tree()] + tail) =~= trees_of(out@) + tail);
                }
            }
            proof {
                assert(trees_of(rest@) =~= Seq::<VNode>::empty());
                assert(trees_of(out@) + Seq::<VNode>::empty() =~= trees_of(out@));
            }
            let r = ViewNode {
                width,
                height,
                x: left,
                y: top,
                w,
                h,
                dirty,
                content: Content::Lin(Linear { orientation, children: out }),
            };
            proof {
                assert(r.tree().kind == spec_placed(gv.tree(), top, left).kind);
                assert(r.tree() == spec_placed(gv.tree(), top, left));
            }
            r
        },
        Content::Shell(f) => {
            let child = match f.child {
                Some(c) => {
                    proof {
                        assert(decreases_to!(gv => *c)) by {
                            let gc = gv.content;
                            let gf = gc->Shell_0;
                            assert(decreases_to!(gv => gc));
                            assert(decreases_to!(gc => gf));
                            assert(decreases_to!(gf => gf.child));
                            assert(decreases_to!(gf.child => gf.child->Some_0));
                            assert(*c == gf.child->Some_0);
                        }
                    }
                    let c2 = place_node(*c, top, left);
                    Some(Box::new(c2))
                },
                None => None,
            };
            ViewNode {
                width,
                height,
                x: left,
                y: top,
                w,
                h,
                dirty,
                content: Content::Shell(Frame { child }),
            }
        },
        leaf => {
            ViewNode { width, height, x: left, y: top, w, h, dirty, content: leaf }
        },
    }
}

impl ViewNode {
    /// Second pass of the view protocol: stores the assigned position of this
    /// view and of all its descendants.  Only positions change.
    pub fn layout(&mut self, top: u16, left: u16)
        ensures
            final(self).tree() == spec_placed(old(self).tree(), top, left),
    {
        let mut tmp = ViewNode {
            width: Dimension::MatchParent,
            height: Dimension::MatchParent,
            x: 0,
            y: 0,
            w: 0,
            h: 0,
            dirty: false,
            content: Content::Title(crate::bars::TitleBar { window_name: None }),
        };
        core::mem::swap(self, &mut tmp);
        let mut done = place_node(tmp, top, left);
        core::mem::swap(self, &mut done);
    }
}


/// The exact (unclamped) sum of the resolved main sizes of a child list.
pub open spec fn sum_main(kids: Seq<VNode>, horiz: bool) -> int
    decreases kids,
{
    if kids.len() == 0 {
        0
    } else {
        len_of(kids[0], horiz) + sum_main(kids.subrange(1, kids.len() as int), horiz)
    }
}

/// Resolved sizes are never negative, so neither is their sum.
proof fn lemma_sum_main_nonneg(kids: Seq<VNode>, horiz: bool)
    ensures
        sum_main(kids, horiz) >= 0,
    decreases kids,
{
    if kids.len() > 0 {
        lemma_sum_main_nonneg(kids.subrange(1, kids.len() as int), horiz);
    }
}

/// A row's resolved main size accumulates the resolved main sizes of the
/// children the resolve pass hands back.
proof fn lemma_row_pass_sum(
    kids: Seq<VNode>,
    share: u16,
    main_spec: Option<u16>,
    cross_spec: Option<u16>,
    horiz: bool,
    running: u16,
    crossm: u16,
)
    ensures
        ({
            let pass = row_pass(kids, share, main_spec, cross_spec, horiz, running, crossm);
            pass.1 == if running + sum_main(pass.0, horiz) > u16::MAX {
                u16::MAX as int
            } else {
                running + sum_main(pass.0, horiz)
            }
        }),
    decreases kids,
{
    if kids.len() > 0 {
        let base = match intrinsic(kids[0], horiz) {
            Some(n) => n,
            None => share,
        };
        let offered = match main_spec {
            Some(m) => if base < sub_floor(m, running) {
                base
            } else {
                sub_floor(m, running)
            },
            None => base,
        };
        let k2 = if horiz {
            spec_measured(kids[0], Some(offered), cross_spec)
        } else {
            spec_measured(kids[0], cross_spec, Some(offered))
        };
        let r2 = add_clamp(running, len_of(k2, horiz));
        let c2 = if len_of(k2, !horiz) > crossm {
            len_of(k2, !horiz)
        } else {
            crossm
        };
        let tail = kids.subrange(1, kids.len() as int);
        lemma_row_pass_sum(tail, share, main_spec, cross_spec, horiz, r2, c2);
        let pass = row_pass(kids, share, main_spec, cross_spec, horiz, running, crossm);
        let rest = row_pass(tail, share, main_spec, cross_spec, horiz, r2, c2);
        assert(pass.0 == seq![k2] + rest.0);
        assert(pass.0.subrange(1, pass.0.len() as int) =~= rest.0);
        assert(pass.0[0] == k2);
        lemma_sum_main_nonneg(rest.0, horiz);
    }
}

/// Layout conservation: a row's resolved main size is exactly the sum of its
/// children's resolved main sizes, whatever constraints are offered, as long
/// as that sum is representable (and is pinned at the largest representable
/// size otherwise).
pub proof fn lemma_layout_conservation(t: VNode, ws: Option<u16>, hs: Option<u16>)
    requires
        t.kind is Row,
    ensures
        ({
            let horiz = t.kind->Row_horiz;
            let m = spec_measured(t, ws, hs);
            let kids = m.kind->Row_kids;
            len_of(m, horiz) == if sum_main(kids, horiz) > u16::MAX {
                u16::MAX as int
            } else {
                sum_main(kids, horiz)
            }
        }),
{
    let horiz = t.kind->Row_horiz;
    let kids = t.kind->Row_kids;
    let main_spec = if horiz {
        ws
    } else {
        hs
    };
    let cross_spec = if horiz {
        hs
    } else {
        ws
    };
    let remaining = match main_spec {
        Some(m) => sub_floor(m, sum_intr(kids, horiz)),
        None => 0,
    };
    let share = share_of(remaining, count_flex(kids, horiz));
    lemma_row_pass_sum(kids, share, main_spec, cross_spec, horiz, 0, 0);
}


/// A tree of the shape the library builds: a frame holds at most one child.
pub open spec fn shapely(t: VNode) -> bool
    decreases t,
{
    match t.kind {
        VKind::Row { horiz, kids } => forall|i: int|
            0 <= i < kids.len() ==> shapely(#[trigger] kids[i]),
        VKind::Shell { kids } => kids.len() <= 1 && (kids.len() > 0 ==> shapely(kids[0])),
        _ => true,
    }
}

/// Every view tree is shapely.
pub proof fn lemma_tree_shapely(v: ViewNode)
    ensures
        shapely(v.tree()),
    decreases v, 1int,
{
    match v.content {
        Content::Lin(l) => {
            lemma_trees_shapely(l.children@);
            lemma_trees_of(l.children@);
        },
        Content::Shell(f) => {
            match f.child {
                Some(c) => {
                    lemma_tree_shapely(*c);
                },
                None => {},
            }
        },
        _ => {},
    }
}

/// Every list of view trees is shapely, member by member.
pub proof fn lemma_trees_shapely(cs: Seq<ViewNode>)
    ensures
        forall|i: int| 0 <= i < trees_of(cs).len() ==> shapely(#[trigger] trees_of(cs)[i]),
    decreases cs, 0int,
{
    lemma_trees_of(cs);
    assert forall|i: int| 0 <= i < trees_of(cs).len() implies shapely(#[trigger] trees_of(cs)[i])
    by {
        assert(decreases_to!(cs => cs[i]));
        lemma_tree_shapely(cs[i]);
    }
}

/// Shapeliness ignores geometry.
proof fn lemma_shapely_erased(t: VNode)
    ensures
        shapely(t) == shapely(erased(t)),
    decreases t,
{
    match t.kind {
        VKind::Row { horiz, kids } => {
            lemma_erased_all(kids);
            assert forall|i: int| 0 <= i < kids.len() implies shapely(#[trigger] kids[i])
                == shapely(erased_all(kids)[i]) by {
                lemma_shapely_erased(kids[i]);
            }
            if shapely(t) {
                assert(shapely(erased(t)));
            }
            if shapely(erased(t)) {
                assert(erased(t).kind->Row_kids == erased_all(kids));
                assert(forall|i: int|
                    0 <= i < erased_all(kids).len() ==> shapely(
                        #[trigger] erased_all(kids)[i],
                    ));
                assert forall|i: int| 0 <= i < kids.len() implies shapely(#[trigger] kids[i]) by {
                    assert(shapely(erased_all(kids)[i]));
                }
            }
        },
        VKind::Shell { kids } => {
            lemma_erased_all(kids);
            if kids.len() > 0 {
                lemma_shapely_erased(kids[0]);
            }
        },
        _ => {},
    }
}

/// The tree with all geometry zeroed: the part of a node the two passes read
/// but never write.
pub open spec fn erased(t: VNode) -> VNode
    decreases t,
{
    VNode {
        x: 0,
        y: 0,
        w: 0,
        h: 0,
        width: t.width,
        height: t.height,
        kind: match t.kind {
            VKind::Row { horiz, kids } => VKind::Row { horiz, kids: erased_all(kids) },
            VKind::Shell { kids } => VKind::Shell { kids: erased_all(kids) },
            k => k,
        },
    }
}

/// `erased`, mapped over a child list.
pub open spec fn erased_all(kids: Seq<VNode>) -> Seq<VNode>
    decreases kids,
{
    if kids.len() == 0 {
        Seq::empty()
    } else {
        seq![erased(kids[0])] + erased_all(kids.subrange(1, kids.len() as int))
    }
}

/// `erased_all` maps each node, in place.
pub proof fn lemma_erased_all(kids: Seq<VNode>)
    ensures
        erased_all(kids).len() == kids.len(),
        forall|i: int|
            #![trigger erased_all(kids)[i]]
            #![trigger erased(kids[i])]
            0 <= i < kids.len() ==> erased_all(kids)[i] == erased(kids[i]),
    decreases kids.len(),
{
    if kids.len() > 0 {
        let tail = kids.subrange(1, kids.len() as int);
        lemma_erased_all(tail);
        assert forall|i: int|
            #![trigger erased_all(kids)[i]]
            #![trigger erased(kids[i])]
            0 <= i < kids.len() implies erased_all(kids)[i] == erased(kids[i]) by {
            if i > 0 {
                assert(erased_all(kids)[i] == erased_all(tail)[i - 1]);
                assert(tail[i - 1] == kids[i]);
            }
        }
    }
}

/// The tree with positions zeroed but sizes kept: what `layout` never reads.
pub open spec fn strip_xy(t: VNode) -> VNode
    decreases t,
{
    VNode {
        x: 0,
        y: 0,
        kind: match t.kind {
            VKind::Row { horiz, kids } => VKind::Row { horiz, kids: strip_all(kids) },
            VKind::Shell { kids } => VKind::Shell { kids: strip_all(kids) },
            k => k,
        },
        ..t
    }
}

/// `strip_xy`, mapped over a child list.
pub open spec fn strip_all(kids: Seq<VNode>) -> Seq<VNode>
    decreases kids,
{
    if kids.len() == 0 {
        Seq::empty()
    } else {
        seq![strip_xy(kids[0])] + strip_all(kids.subrange(1, kids.len() as int))
    }
}

/// `strip_all` maps each node, in place.
pub proof fn lemma_strip_all(kids: Seq<VNode>)
    ensures
        strip_all(kids).len() == kids.len(),
        forall|i: int|
            #![trigger strip_all(kids)[i]]
            #![trigger strip_xy(kids[i])]
            0 <= i < kids.len() ==> strip_all(kids)[i] == strip_xy(kids[i]),
    decreases kids.len(),
{
    if kids.len() > 0 {
        let tail = kids.subrange(1, kids.len() as int);
        lemma_strip_all(tail);
        assert forall|i: int|
            #![trigger strip_all(kids)[i]]
            #![trigger strip_xy(kids[i])]
            0 <= i < kids.len() implies strip_all(kids)[i] == strip_xy(kids[i]) by {
            if i > 0 {
                assert(strip_all(kids)[i] == strip_all(tail)[i - 1]);
                assert(tail[i - 1] == kids[i]);
            }
        }
    }
}

/// The measure pass writes only geometry.
pub proof fn lemma_measured_erased(t: VNode, ws: Option<u16>, hs: Option<u16>)
    ensures
        erased(spec_measured(t, ws, hs)) == erased(t),
    decreases t, 1int,
{
    match t.kind {
        VKind::Row { horiz, kids } => {
            let main_spec = if horiz { ws } else { hs };
            let cross_spec = if horiz { hs } else { ws };
            let remaining = match main_spec {
                Some(m) => sub_floor(m, sum_intr(kids, horiz)),
                None => 0,
            };
            let share = share_of(remaining, count_flex(kids, horiz));
            lemma_row_pass_erased(kids, share, main_spec, cross_spec, horiz, 0, 0);
        },
        VKind::Shell { kids } => {
            if kids.len() > 0 {
                let w = spec_resolve_dim(t.width, ws);
                let h = spec_resolve_dim(t.height, hs);
                lemma_measured_erased(kids[0], Some(w), Some(h));
                let m = spec_measured(t, ws, hs);
                lemma_erased_all(kids);
                lemma_erased_all(m.kind->Shell_kids);
                assert(m.kind->Shell_kids[0] == spec_measured(kids[0], Some(w), Some(h)));
                assert forall|i: int| 1 <= i < kids.len() implies m.kind->Shell_kids[i] == kids[i]
                by {
                    assert(m.kind->Shell_kids[i] == kids.subrange(1, kids.len() as int)[i - 1]);
                }
                assert(erased_all(m.kind->Shell_kids) =~= erased_all(kids));
            } else {
                assert(erased_all(Seq::<VNode>::empty()) =~= Seq::<VNode>::empty());
            }
        },
        _ => {},
    }
}

/// The resolve pass writes only geometry in each child.
proof fn lemma_row_pass_erased(
    kids: Seq<VNode>,
    share: u16,
    main_spec: Option<u16>,
    cross_spec: Option<u16>,
    horiz: bool,
    running: u16,
    crossm: u16,
)
    ensures
        erased_all(row_pass(kids, share, main_spec, cross_spec, horiz, running, crossm).0)
            == erased_all(kids),
    decreases kids, 0int,
{
    if kids.len() > 0 {
        let base = match intrinsic(kids[0], horiz) {
            Some(n) => n,
            None => share,
        };
        let offered = match main_spec {
            Some(m) => if base < sub_floor(m, running) {
                base
            } else {
                sub_floor(m, running)
            },
            None => base,
        };
        let k2 = if horiz {
            spec_measured(kids[0], Some(offered), cross_spec)
        } else {
            spec_measured(kids[0], cross_spec, Some(offered))
        };
        if horiz {
            lemma_measured_erased(kids[0], Some(offered), cross_spec);
        } else {
            lemma_measured_erased(kids[0], cross_spec, Some(offered));
        }
        let r2 = add_clamp(running, len_of(k2, horiz));
        let c2 = if len_of(k2, !horiz) > crossm {
            len_of(k2, !horiz)
        } else {
            crossm
        };
        let tail = kids.subrange(1, kids.len() as int);
        lemma_row_pass_erased(tail, share, main_spec, cross_spec, horiz, r2, c2);
        let pass = row_pass(kids, share, main_spec, cross_spec, horiz, running, crossm);
        let rest = row_pass(tail, share, main_spec, cross_spec, horiz, r2, c2);
        assert(pass.0 == seq![k2] + rest.0);
        assert(pass.0.subrange(1, pass.0.len() as int) =~= rest.0);
        assert(pass.0[0] == k2);
        assert(erased_all(pass.0) =~= erased_all(kids));
    } else {
        assert(erased_all(row_pass(kids, share, main_spec, cross_spec, horiz, running, crossm).0)
            =~= erased_all(kids));
    }
}

/// The layout pass writes only geometry.
pub proof fn lemma_placed_erased(t: VNode, top: u16, left: u16)
    ensures
        erased(spec_placed(t, top, left)) == erased(t),
    decreases t, 1int,
{
    match t.kind {
        VKind::Row { horiz, kids } => {
            lemma_row_place_erased(kids, horiz, top, left);
        },
        VKind::Shell { kids } => {
            if kids.len() > 0 {
                lemma_placed_erased(kids[0], top, left);
                let p = spec_placed(t, top, left);
                lemma_erased_all(kids);
                lemma_erased_all(p.kind->Shell_kids);
                assert(p.kind->Shell_kids[0] == spec_placed(kids[0], top, left));
                assert forall|i: int| 1 <= i < kids.len() implies p.kind->Shell_kids[i] == kids[i]
                by {
                    assert(p.kind->Shell_kids[i] == kids.subrange(1, kids.len() as int)[i - 1]);
                }
                assert(erased_all(p.kind->Shell_kids) =~= erased_all(kids));
            } else {
                assert(erased_all(Seq::<VNode>::empty()) =~= Seq::<VNode>::empty());
            }
        },
        _ => {},
    }
}

/// The row layout pass writes only geometry in each child.
proof fn lemma_row_place_erased(kids: Seq<VNode>, horiz: bool, top: u16, left: u16)
    ensures
        erased_all(row_place(kids, horiz, top, left)) == erased_all(kids),
    decreases kids, 0int,
{
    if kids.len() > 0 {
        lemma_placed_erased(kids[0], top, left);
        let tail = kids.subrange(1, kids.len() as int);
        if horiz {
            lemma_row_place_erased(tail, horiz, top, add_clamp(left, kids[0].w));
        } else {
            lemma_row_place_erased(tail, horiz, add_clamp(top, kids[0].h), left);
        }
        let placed = row_place(kids, horiz, top, left);
        assert(placed[0] == spec_placed(kids[0], top, left));
        assert(placed.subrange(1, placed.len() as int) =~= if horiz {
            row_place(tail, horiz, top, add_clamp(left, kids[0].w))
        } else {
            row_place(tail, horiz, add_clamp(top, kids[0].h), left)
        });
        assert(erased_all(placed) =~= erased_all(kids));
    } else {
        assert(erased_all(row_place(kids, horiz, top, left)) =~= erased_all(kids));
    }
}

/// Nodes that agree on everything but geometry report the same intrinsic
/// sizes.
proof fn lemma_intr_cong(a: VNode, b: VNode, horiz: bool)
    requires
        erased(a) == erased(b),
    ensures
        intrinsic(a, horiz) == intrinsic(b, horiz),
    decreases a, 1int,
{
    match a.kind {
        VKind::Row { horiz: rha, kids: akids } => {
            let bkids = b.kind->Row_kids;
            assert(erased_all(akids) == erased_all(bkids));
            lemma_aggr_cong(akids, bkids, horiz);
        },
        VKind::Shell { kids: akids } => {
            let bkids = b.kind->Shell_kids;
            assert(erased_all(akids) == erased_all(bkids));
            lemma_erased_all(akids);
            lemma_erased_all(bkids);
            if akids.len() > 0 {
                lemma_intr_cong(akids[0], bkids[0], horiz);
            }
        },
        _ => {},
    }
}

/// Child lists that agree on everything but geometry aggregate alike.
proof fn lemma_aggr_cong(akids: Seq<VNode>, bkids: Seq<VNode>, horiz: bool)
    requires
        erased_all(akids) == erased_all(bkids),
    ensures
        akids.len() == bkids.len(),
        sum_intr(akids, horiz) == sum_intr(bkids, horiz),
        max_intr(akids, horiz) == max_intr(bkids, horiz),
        count_flex(akids, horiz) == count_flex(bkids, horiz),
    decreases akids, 0int,
{
    lemma_erased_all(akids);
    lemma_erased_all(bkids);
    if akids.len() > 0 {
        lemma_intr_cong(akids[0], bkids[0], horiz);
        let atail = akids.subrange(1, akids.len() as int);
        let btail = bkids.subrange(1, bkids.len() as int);
        lemma_erased_all(atail);
        lemma_erased_all(btail);
        assert(erased_all(atail) =~= erased_all(btail));
        lemma_aggr_cong(atail, btail, horiz);
    }
}

/// Nodes that agree on everything but geometry measure alike: the results
/// differ at most in their (untouched) positions.
proof fn lemma_measured_cong(a: VNode, b: VNode, ws: Option<u16>, hs: Option<u16>)
    requires
        erased(a) == erased(b),
        shapely(a),
        shapely(b),
    ensures
        strip_xy(spec_measured(a, ws, hs)) == strip_xy(spec_measured(b, ws, hs)),
    decreases a, 1int,
{
    match a.kind {
        VKind::Row { horiz, kids: akids } => {
            let bkids = b.kind->Row_kids;
            assert(erased_all(akids) == erased_all(bkids));
            lemma_aggr_cong(akids, bkids, horiz);
            let main_spec = if horiz { ws } else { hs };
            let cross_spec = if horiz { hs } else { ws };
            let remaining = match main_spec {
                Some(m) => sub_floor(m, sum_intr(akids, horiz)),
                None => 0,
            };
            let share = share_of(remaining, count_flex(akids, horiz));
            lemma_row_pass_cong(akids, bkids, share, main_spec, cross_spec, horiz, 0, 0);
        },
        VKind::Shell { kids: akids } => {
            let bkids = b.kind->Shell_kids;
            assert(erased_all(akids) == erased_all(bkids));
            lemma_erased_all(akids);
            lemma_erased_all(bkids);
            let w = spec_resolve_dim(a.width, ws);
            let h = spec_resolve_dim(a.height, hs);
            if akids.len() > 0 {
                lemma_measured_cong(akids[0], bkids[0], Some(w), Some(h));
                let ma = spec_measured(a, ws, hs);
                let mb = spec_measured(b, ws, hs);
                lemma_strip_all(ma.kind->Shell_kids);
                lemma_strip_all(mb.kind->Shell_kids);
                assert(akids.subrange(1, akids.len() as int) =~= Seq::<VNode>::empty());
                assert(bkids.subrange(1, bkids.len() as int) =~= Seq::<VNode>::empty());
                assert(ma.kind->Shell_kids =~= seq![
                    spec_measured(akids[0], Some(w), Some(h)),
                ]);
                assert(mb.kind->Shell_kids =~= seq![
                    spec_measured(bkids[0], Some(w), Some(h)),
                ]);
                assert(strip_all(ma.kind->Shell_kids) =~= strip_all(mb.kind->Shell_kids));
            } else {
                assert(strip_all(Seq::<VNode>::empty()) =~= Seq::<VNode>::empty());
            }
        },
        _ => {},
    }
}

/// Child lists that agree on everything but geometry resolve alike.
proof fn lemma_row_pass_cong(
    akids: Seq<VNode>,
    bkids: Seq<VNode>,
    share: u16,
    main_spec: Option<u16>,
    cross_spec: Option<u16>,
    horiz: bool,
    running: u16,
    crossm: u16,
)
    requires
        erased_all(akids) == erased_all(bkids),
        forall|i: int| 0 <= i < akids.len() ==> shapely(#[trigger] akids[i]),
        forall|i: int| 0 <= i < bkids.len() ==> shapely(#[trigger] bkids[i]),
    ensures
        ({
            let pa = row_pass(akids, share, main_spec, cross_spec, horiz, running, crossm);
            let pb = row_pass(bkids, share, main_spec, cross_spec, horiz, running, crossm);
            &&& strip_all(pa.0) == strip_all(pb.0)
            &&& pa.1 == pb.1
            &&& pa.2 == pb.2
        }),
    decreases akids, 0int,
{
    lemma_erased_all(akids);
    lemma_erased_all(bkids);
    if akids.len() > 0 {
        assert(shapely(akids[0]));
        assert(shapely(bkids[0]));
        lemma_intr_cong(akids[0], bkids[0], horiz);
        let base = match intrinsic(akids[0], horiz) {
            Some(n) => n,
            None => share,
        };
        let offered = match main_spec {
            Some(m) => if base < sub_floor(m, running) {
                base
            } else {
                sub_floor(m, running)
            },
            None => base,
        };
        let (cws, chs): (Option<u16>, Option<u16>) = if horiz {
            (Some(offered), cross_spec)
        } else {
            (cross_spec, Some(offered))
        };
        lemma_measured_cong(akids[0], bkids[0], cws, chs);
        let ka = spec_measured(akids[0], cws, chs);
        let kb = spec_measured(bkids[0], cws, chs);
        assert(ka.w == kb.w && ka.h == kb.h);
        let r2 = add_clamp(running, len_of(ka, horiz));
        let c2 = if len_of(ka, !horiz) > crossm {
            len_of(ka, !horiz)
        } else {
            crossm
        };
        let atail = akids.subrange(1, akids.len() as int);
        let btail = bkids.subrange(1, bkids.len() as int);
        lemma_erased_all(atail);
        lemma_erased_all(btail);
        assert(erased_all(atail) =~= erased_all(btail));
        lemma_row_pass_cong(atail, btail, share, main_spec, cross_spec, horiz, r2, c2);
        let pa = row_pass(akids, share, main_spec, cross_spec, horiz, running, crossm);
        let pb = row_pass(bkids, share, main_spec, cross_spec, horiz, running, crossm);
        let ra = row_pass(atail, share, main_spec, cross_spec, horiz, r2, c2);
        let rb = row_pass(btail, share, main_spec, cross_spec, horiz, r2, c2);
        assert(pa.0.subrange(1, pa.0.len() as int) =~= ra.0);
        assert(pb.0.subrange(1, pb.0.len() as int) =~= rb.0);
        assert(pa.0[0] == ka && pb.0[0] == kb);
        lemma_strip_all(pa.0);
        lemma_strip_all(pb.0);
        lemma_strip_all(ra.0);
        lemma_strip_all(rb.0);
        assert(strip_all(pa.0) =~= strip_all(pb.0));
    } else {
        assert(strip_all(row_pass(akids, share, main_spec, cross_spec, horiz, running, crossm).0)
            =~= strip_all(row_pass(bkids, share, main_spec, cross_spec, horiz, running, crossm).0));
    }
}

/// Nodes that agree on everything but their positions are laid out to the
/// very same tree.
proof fn lemma_placed_cong(a: VNode, b: VNode, top: u16, left: u16)
    requires
        strip_xy(a) == strip_xy(b),
        shapely(a),
        shapely(b),
    ensures
        spec_placed(a, top, left) == spec_placed(b, top, left),
    decreases a, 1int,
{
    match a.kind {
        VKind::Row { horiz, kids: akids } => {
            let bkids = b.kind->Row_kids;
            assert(strip_all(akids) == strip_all(bkids));
            lemma_row_place_cong(akids, bkids, horiz, top, left);
        },
        VKind::Shell { kids: akids } => {
            let bkids = b.kind->Shell_kids;
            assert(strip_all(akids) == strip_all(bkids));
            lemma_strip_all(akids);
            lemma_strip_all(bkids);
            if akids.len() > 0 {
                lemma_placed_cong(akids[0], bkids[0], top, left);
                let pa = spec_placed(a, top, left);
                let pb = spec_placed(b, top, left);
                assert(akids.subrange(1, akids.len() as int) =~= Seq::<VNode>::empty());
                assert(bkids.subrange(1, bkids.len() as int) =~= Seq::<VNode>::empty());
                assert(pa.kind->Shell_kids =~= pb.kind->Shell_kids);
            }
        },
        _ => {},
    }
}

/// Child lists that agree on everything but their positions are laid out to
/// the very same children.
proof fn lemma_row_place_cong(
    akids: Seq<VNode>,
    bkids: Seq<VNode>,
    horiz: bool,
    top: u16,
    left: u16,
)
    requires
        strip_all(akids) == strip_all(bkids),
        forall|i: int| 0 <= i < akids.len() ==> shapely(#[trigger] akids[i]),
        forall|i: int| 0 <= i < bkids.len() ==> shapely(#[trigger] bkids[i]),
    ensures
        row_place(akids, horiz, top, left) == row_place(bkids, horiz, top, left),
    decreases akids, 0int,
{
    lemma_strip_all(akids);
    lemma_strip_all(bkids);
    if akids.len() > 0 {
        lemma_placed_cong(akids[0], bkids[0], top, left);
        assert(akids[0].w == bkids[0].w && akids[0].h == bkids[0].h);
        let atail = akids.subrange(1, akids.len() as int);
        let btail = bkids.subrange(1, bkids.len() as int);
        lemma_strip_all(atail);
        lemma_strip_all(btail);
        assert(strip_all(atail) =~= strip_all(btail));
        if horiz {
            lemma_row_place_cong(atail, btail, horiz, top, add_clamp(left, akids[0].w));
        } else {
            lemma_row_place_cong(atail, btail, horiz, add_clamp(top, akids[0].h), left);
        }
        assert(row_place(akids, horiz, top, left) =~= row_place(bkids, horiz, top, left));
    } else {
        assert(row_place(akids, horiz, top, left) =~= row_place(bkids, horiz, top, left));
    }
}

/// Idempotent geometry: running `measure` and `layout` a second time with
/// the same constraints and origin reproduces exactly the same positions and
/// sizes at every node of the tree.
pub proof fn lemma_measure_layout_idempotent(
    t: VNode,
    ws: Option<u16>,
    hs: Option<u16>,
    top: u16,
    left: u16,
)
    requires
        shapely(t),
    ensures
        ({
            let once = spec_placed(spec_measured(t, ws, hs), top, left);
            spec_placed(spec_measured(once, ws, hs), top, left) == once
        }),
{
    let m = spec_measured(t, ws, hs);
    let once = spec_placed(m, top, left);
    lemma_measured_erased(t, ws, hs);
    lemma_placed_erased(m, top, left);
    assert(erased(once) == erased(t));
    lemma_shapely_erased(once);
    lemma_shapely_erased(t);
    assert(shapely(once));
    lemma_measured_cong(once, t, ws, hs);
    lemma_shapely_erased(spec_measured(once, ws, hs));
    lemma_shapely_erased(m);
    lemma_measured_erased(once, ws, hs);
    assert(shapely(spec_measured(once, ws, hs)));
    assert(shapely(m));
    lemma_placed_cong(spec_measured(once, ws, hs), m, top, left);
}

} // verus!
