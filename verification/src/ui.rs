use vstd::prelude::*;

use crate::bars::{TitleBar, WinBar};
use crate::buffer::BufferedWin;
use crate::command::Command;
use crate::input::InputLine;
use crate::view::{
    erased, erased_all, lemma_measured_erased, lemma_placed_erased, lemma_erased_all,
    lemma_trees_of, spec_measured, spec_placed, trees_of, Content, Dimension, Frame, Linear,
    Orientation, VNode, ViewNode,
};

verus! {

/// Whether a conversation window shows a one-to-one chat or a room.
#[derive(Clone, Copy, Debug, PartialEq, Eq, Structural)]
pub enum ConversationKind {
    Chat,
    Group,
}

/// A conversation the client takes part in, keyed by the counterpart's bare
/// address, which is also its window's name.
#[derive(Debug, Clone)]
pub struct Conversation {
    pub jid: String,
    pub kind: ConversationKind,
}

/// The fixed shape of the root tree: a vertical row of the title bar, the
/// window frame, the window bar and the input line.
pub open spec fn ui_shape(t: VNode) -> bool {
    &&& t.kind is Row
    &&& !(t.kind->Row_horiz)
    &&& t.kind->Row_kids.len() == 4
    &&& t.kind->Row_kids[0].kind is Title
    &&& t.kind->Row_kids[1].kind is Shell
    &&& t.kind->Row_kids[2].kind is Bar
    &&& t.kind->Row_kids[3].kind is Entry
}

/// Nodes with the same everything-but-geometry keep the root shape and the
/// bar and input payloads.
pub proof fn lemma_ui_shape_preserved(t: VNode, t2: VNode)
    requires
        erased(t) == erased(t2),
        ui_shape(t),
    ensures
        ui_shape(t2),
        t2.kind->Row_kids[2].kind->Bar_0 == t.kind->Row_kids[2].kind->Bar_0,
        t2.kind->Row_kids[3].kind->Entry_0 == t.kind->Row_kids[3].kind->Entry_0,
        t2.kind->Row_kids[0].kind->Title_0 == t.kind->Row_kids[0].kind->Title_0,
        erased_all(t2.kind->Row_kids[1].kind->Shell_kids) == erased_all(
            t.kind->Row_kids[1].kind->Shell_kids,
        ),
{
    let kids = t.kind->Row_kids;
    let kids2 = t2.kind->Row_kids;
    lemma_erased_all(kids);
    lemma_erased_all(kids2);
    assert(erased(t).kind->Row_kids == erased_all_of(t));
    assert forall|i: int| 0 <= i < 4 implies crate::view::erased(kids2[i]) == crate::view::erased(
        kids[i],
    ) by {
        assert(crate::view::erased_all(kids)[i] == crate::view::erased(kids[i]));
        assert(crate::view::erased_all(kids2)[i] == crate::view::erased(kids2[i]));
    }
}

/// The erased children of a row.
pub open spec fn erased_all_of(t: VNode) -> Seq<VNode> {
    crate::view::erased_all(t.kind->Row_kids)
}

/// The retained state of the console: the view tree, the windows (the one on
/// show inside the frame, the others stashed by name), the conversation
/// registry, completion state, and the cooperative shutdown flag.
pub struct Ui {
    pub root: ViewNode,
    pub stash: Vec<(String, ViewNode)>,
    pub windows: Vec<String>,
    pub current_window: Option<String>,
    pub conversations: Vec<Conversation>,
    pub password_command: Option<Command>,
    pub connection: Option<crate::message::Jid>,
    pub completion: Option<Vec<String>>,
    pub current_completion: usize,
    pub running: bool,
    pub width: u16,
    pub height: u16,
}

impl Ui {
    /// The window bar's state, read off the tree.
    pub open spec fn spec_winbar(self) -> WinBar {
        self.root.tree().kind->Row_kids[2].kind->Bar_0
    }

    /// The input line's state, read off the tree.
    pub open spec fn spec_entry(self) -> InputLine {
        self.root.tree().kind->Row_kids[3].kind->Entry_0
    }

    /// The title bar's state, read off the tree.
    pub open spec fn spec_title(self) -> TitleBar {
        self.root.tree().kind->Row_kids[0].kind->Title_0
    }

    /// The frame's node in the mathematical tree.
    pub open spec fn spec_frame_node(self) -> VNode {
        self.root.tree().kind->Row_kids[1]
    }

    /// The frame's child list in the mathematical tree: empty, or the one
    /// window on show.
    pub open spec fn spec_frame_kids(self) -> Seq<VNode> {
        self.spec_frame_node().kind->Shell_kids
    }

    /// The root keeps its shape, its bar and input line stay well-formed,
    /// and the completion marker stays inside the candidate list.
    pub open spec fn wf(self) -> bool {
        &&& ui_shape(self.root.tree())
        &&& self.spec_winbar().wf()
        &&& self.spec_entry().wf()
        &&& (match self.completion {
            Some(c) => c@.len() > 0 ==> self.current_completion < c@.len(),
            None => true,
        })
    }

    /// Builds the view tree: a vertical layout of the one-row title bar, the
    /// window frame filling the middle, the one-row window bar and the
    /// one-row input line.
    pub fn new() -> (r: Ui)
        ensures
            r.wf(),
            r.windows@.len() == 0,
            r.stash@.len() == 0,
            r.current_window is None,
            r.conversations@.len() == 0,
            r.completion is None,
            r.current_completion == 0,
            r.password_command is None,
            r.connection is None,
            r.running,
            r.root.tree().width is MatchParent && r.root.tree().height is MatchParent,
            ({
                let kids = r.root.tree().kind->Row_kids;
                &&& kids[0].width is MatchParent && kids[0].height == Dimension::Absolute(1)
                &&& kids[0].kind->Title_0.window_name is None
                &&& kids[1].width is MatchParent && kids[1].height is MatchParent
                &&& kids[1].kind->Shell_kids.len() == 0
                &&& kids[2].width is MatchParent && kids[2].height == Dimension::Absolute(1)
                &&& kids[3].width is MatchParent && kids[3].height == Dimension::Absolute(1)
            }),
            r.spec_winbar().windows@.len() == 0 && r.spec_winbar().connection is None
                && r.spec_winbar().current_window is None && r.spec_winbar().highlighted@.len()
                == 0,
            r.spec_entry().buf@.len() == 0 && r.spec_entry().cursor == 0
                && !r.spec_entry().password && r.spec_entry().history@.len() == 0,
            r.root.dirty,
            forall|i: int|
                0 <= i < 4 ==> #[trigger] r.root.content->Lin_0.children@[i].dirty,
    {
        let title = ViewNode {
            width: Dimension::MatchParent,
            height: Dimension::Absolute(1),
            x: 0,
            y: 0,
            w: 0,
            h: 0,
            dirty: true,
            content: Content::Title(TitleBar::new()),
        };
        let frame = ViewNode {
            width: Dimension::MatchParent,
            height: Dimension::MatchParent,
            x: 0,
            y: 0,
            w: 0,
            h: 0,
            dirty: true,
            content: Content::Shell(Frame { child: None }),
        };
        let bar = ViewNode {
            width: Dimension::MatchParent,
            height: Dimension::Absolute(1),
            x: 0,
            y: 0,
            w: 0,
            h: 0,
            dirty: true,
            content: Content::Bar(WinBar::new()),
        };
        let entry = ViewNode {
            width: Dimension::MatchParent,
            height: Dimension::Absolute(1),
            x: 0,
            y: 0,
            w: 0,
            h: 0,
            dirty: true,
            content: Content::Entry(InputLine::new()),
        };
        let mut children: Vec<ViewNode> = Vec::new();
        children.push(title);
        children.push(frame);
        children.push(bar);
        children.push(entry);
        let root = ViewNode {
            width: Dimension::MatchParent,
            height: Dimension::MatchParent,
            x: 0,
            y: 0,
            w: 0,
            h: 0,
            dirty: true,
            content: Content::Lin(Linear { orientation: Orientation::Vertical, children }),
        };
        let r = Ui {
            root,
            stash: Vec::new(),
            windows: Vec::new(),
            current_window: None,
            conversations: Vec::new(),
            password_command: None,
            connection: None,
            completion: None,
            current_completion: 0,
            running: true,
            width: 0,
            height: 0,
        };
        proof {
            lemma_trees_of(r.root.content->Lin_0.children@);
            assert(ui_shape(r.root.tree()));
        }
        r
    }

    /// The tracked window names, in the order they were added.
    pub fn get_windows(&self) -> (r: Vec<String>)
        ensures
            r.deep_view() == self.windows.deep_view(),
    {
        let mut r: Vec<String> = Vec::new();
        let mut i: usize = 0;
        while i < self.windows.len()
            invariant
                i <= self.windows@.len(),
                r.deep_view() == self.windows.deep_view().subrange(0, i as int),
            decreases self.windows@.len() - i,
        {
            let ghost g = r.deep_view();
            r.push(self.windows[i].clone());
            proof {
                assert(r.deep_view() =~= g.push(self.windows@[i as int]@));
                assert(r.deep_view() =~= self.windows.deep_view().subrange(0, i as int + 1));
            }
            i = i + 1;
        }
        proof {
            assert(self.windows.deep_view().subrange(0, self.windows@.len() as int)
                =~= self.windows.deep_view());
        }
        r
    }

    /// Forgets any completion cycle in progress.
    pub fn reset_completion(&mut self)
        ensures
            final(self).completion is None,
            final(self).current_completion == 0,
            *final(self) == (Ui {
                completion: None,
                current_completion: 0,
                ..*old(self)
            }),
            old(self).wf() ==> final(self).wf(),
    {
        self.completion = None;
        self.current_completion = 0;
    }

    /// Cycles the cached completion candidates through the argument under
    /// the caret: the candidate replaces it (or is appended one past the
    /// end), and the cycle moves on, wrapping around the list.
    pub fn autocomplete(&mut self, command: &mut crate::command::Command)
        requires
            old(self).wf(),
        ensures
            final(self).wf(),
            final(self).root == old(self).root,
            final(self).running == old(self).running,
            final(self).windows == old(self).windows,
            final(self).stash == old(self).stash,
            final(self).current_window == old(self).current_window,
            final(self).completion == old(self).completion,
            ({
                match old(self).completion {
                    None => *final(command) == *old(command) && *final(self) == *old(self),
                    Some(c) => if c@.len() == 0 {
                        *final(command) == *old(command) && *final(self) == *old(self)
                    } else {
                        &&& final(command).cursor == old(command).cursor
                        &&& final(self).current_completion as int == (old(
                            self,
                        ).current_completion as int + 1) % c@.len() as int
                        &&& (old(command).cursor < old(command).args@.len()
                            ==> final(command).args.deep_view() == old(
                            command,
                        ).args.deep_view().update(
                            old(command).cursor as int,
                            c@[old(self).current_completion as int]@,
                        ))
                        &&& (old(command).cursor >= old(command).args@.len()
                            ==> final(command).args.deep_view() == old(
                            command,
                        ).args.deep_view().push(c@[old(self).current_completion as int]@))
                    },
                }
            }),
    {
        let cache_empty = match &self.completion {
            None => true,
            Some(c) => c.len() == 0,
        };
        if cache_empty {
            return ;
        }
        let entry = match &self.completion {
            Some(c) => c[self.current_completion].clone(),
            None => String::new(),
        };
        let n = match &self.completion {
            Some(c) => c.len(),
            None => 1,
        };
        let ghost gargs = command.args.deep_view();
        if command.cursor < command.args.len() {
            let _replaced = command.args.remove(command.cursor);
            command.args.insert(command.cursor, entry);
            proof {
                assert(command.args.deep_view() =~= gargs.update(
                    command.cursor as int,
                    old(self).completion->Some_0@[old(self).current_completion as int]@,
                ));
            }
        } else {
            command.args.push(entry);
            proof {
                assert(command.args.deep_view() =~= gargs.push(
                    old(self).completion->Some_0@[old(self).current_completion as int]@,
                ));
            }
        }
        self.current_completion = (self.current_completion + 1) % n;
    }
}


impl Ui {
    /// Takes the input line out of the tree, leaving a fresh one.
    fn take_entry(&mut self) -> (r: InputLine)
        requires
            old(self).wf(),
        ensures
            final(self).wf(),
            r == old(self).spec_entry(),
            final(self).spec_winbar() == old(self).spec_winbar(),
            final(self).root.tree().kind->Row_kids[0] == old(self).root.tree().kind->Row_kids[0],
            final(self).root.tree().kind->Row_kids[1] == old(self).root.tree().kind->Row_kids[1],
            final(self).root.tree().kind->Row_kids[2] == old(self).root.tree().kind->Row_kids[2],
            final(self).windows == old(self).windows,
            final(self).stash == old(self).stash,
            final(self).current_window == old(self).current_window,
            final(self).conversations == old(self).conversations,
            final(self).password_command == old(self).password_command,
            final(self).connection == old(self).connection,
            final(self).completion == old(self).completion,
            final(self).current_completion == old(self).current_completion,
            final(self).running == old(self).running,
            final(self).width == old(self).width,
            final(self).height == old(self).height,
    {
        proof {
            lemma_trees_of(self.root.content->Lin_0.children@);
        }
        let mut slot = InputLine::new();
        match &mut self.root.content {
            Content::Lin(l) => {
                let ghost gch = l.children@;
                let mut node = l.children.remove(3);
                match &mut node.content {
                    Content::Entry(il) => {
                        core::mem::swap(il, &mut slot);
                    },
                    _ => {
                        proof {
                            assert(false);
                        }
                    },
                }
                l.children.insert(3, node);
                proof {
                    lemma_trees_of(l.children@);
                    assert(trees_of(l.children@) =~= trees_of(gch).update(
                        3,
                        l.children@[3].tree(),
                    ));
                }
            },
            _ => {
                proof {
                    assert(false);
                }
            },
        }
        slot
    }

    /// Puts an input line back into the tree.
    fn put_entry(&mut self, entry: InputLine)
        requires
            old(self).wf(),
            entry.wf(),
        ensures
            final(self).wf(),
            final(self).spec_entry() == entry,
            final(self).spec_winbar() == old(self).spec_winbar(),
            final(self).root.tree().kind->Row_kids[0] == old(self).root.tree().kind->Row_kids[0],
            final(self).root.tree().kind->Row_kids[1] == old(self).root.tree().kind->Row_kids[1],
            final(self).root.tree().kind->Row_kids[2] == old(self).root.tree().kind->Row_kids[2],
            final(self).windows == old(self).windows,
            final(self).stash == old(self).stash,
            final(self).current_window == old(self).current_window,
            final(self).conversations == old(self).conversations,
            final(self).password_command == old(self).password_command,
            final(self).connection == old(self).connection,
            final(self).completion == old(self).completion,
            final(self).current_completion == old(self).current_completion,
            final(self).running == old(self).running,
            final(self).width == old(self).width,
            final(self).height == old(self).height,
    {
        proof {
            lemma_trees_of(self.root.content->Lin_0.children@);
        }
        let mut slot = entry;
        match &mut self.root.content {
            Content::Lin(l) => {
                let ghost gch = l.children@;
                let mut node = l.children.remove(3);
                match &mut node.content {
                    Content::Entry(il) => {
                        core::mem::swap(il, &mut slot);
                    },
                    _ => {
                        proof {
                            assert(false);
                        }
                    },
                }
                node.dirty = true;
                l.children.insert(3, node);
                proof {
                    lemma_trees_of(l.children@);
                    assert(trees_of(l.children@) =~= trees_of(gch).update(
                        3,
                        l.children@[3].tree(),
                    ));
                }
            },
            _ => {
                proof {
                    assert(false);
                }
            },
        }
    }

    /// Takes the window bar out of the tree, leaving a fresh one.
    fn take_bar(&mut self) -> (r: WinBar)
        requires
            old(self).wf(),
        ensures
            final(self).wf(),
            r == old(self).spec_winbar(),
            final(self).spec_entry() == old(self).spec_entry(),
            final(self).root.tree().kind->Row_kids[0] == old(self).root.tree().kind->Row_kids[0],
            final(self).root.tree().kind->Row_kids[1] == old(self).root.tree().kind->Row_kids[1],
            final(self).root.tree().kind->Row_kids[3] == old(self).root.tree().kind->Row_kids[3],
            final(self).windows == old(self).windows,
            final(self).stash == old(self).stash,
            final(self).current_window == old(self).current_window,
            final(self).conversations == old(self).conversations,
            final(self).password_command == old(self).password_command,
            final(self).connection == old(self).connection,
            final(self).completion == old(self).completion,
            final(self).current_completion == old(self).current_completion,
            final(self).running == old(self).running,
            final(self).width == old(self).width,
            final(self).height == old(self).height,
    {
        proof {
            lemma_trees_of(self.root.content->Lin_0.children@);
        }
        let mut slot = WinBar::new();
        match &mut self.root.content {
            Content::Lin(l) => {
                let ghost gch = l.children@;
                let mut node = l.children.remove(2);
                match &mut node.content {
                    Content::Bar(wb) => {
                        core::mem::swap(wb, &mut slot);
                    },
                    _ => {
                        proof {
                            assert(false);
                        }
                    },
                }
                l.children.insert(2, node);
                proof {
                    lemma_trees_of(l.children@);
                    assert(trees_of(l.children@) =~= trees_of(gch).update(
                        2,
                        l.children@[2].tree(),
                    ));
                }
            },
            _ => {
                proof {
                    assert(false);
                }
            },
        }
        slot
    }

    /// Puts a window bar back into the tree.
    fn put_bar(&mut self, bar: WinBar)
        requires
            old(self).wf(),
            bar.wf(),
        ensures
            final(self).wf(),
            final(self).spec_winbar() == bar,
            final(self).spec_entry() == old(self).spec_entry(),
            final(self).root.tree().kind->Row_kids[0] == old(self).root.tree().kind->Row_kids[0],
            final(self).root.tree().kind->Row_kids[1] == old(self).root.tree().kind->Row_kids[1],
            final(self).root.tree().kind->Row_kids[3] == old(self).root.tree().kind->Row_kids[3],
            final(self).windows == old(self).windows,
            final(self).stash == old(self).stash,
            final(self).current_window == old(self).current_window,
            final(self).conversations == old(self).conversations,
            final(self).password_command == old(self).password_command,
            final(self).connection == old(self).connection,
            final(self).completion == old(self).completion,
            final(self).current_completion == old(self).current_completion,
            final(self).running == old(self).running,
            final(self).width == old(self).width,
            final(self).height == old(self).height,
    {
        proof {
            lemma_trees_of(self.root.content->Lin_0.children@);
        }
        let mut slot = bar;
        match &mut self.root.content {
            Content::Lin(l) => {
                let ghost gch = l.children@;
                let mut node = l.children.remove(2);
                match &mut node.content {
                    Content::Bar(wb) => {
                        core::mem::swap(wb, &mut slot);
                    },
                    _ => {
                        proof {
                            assert(false);
                        }
                    },
                }
                node.dirty = true;
                l.children.insert(2, node);
                proof {
                    lemma_trees_of(l.children@);
                    assert(trees_of(l.children@) =~= trees_of(gch).update(
                        2,
                        l.children@[2].tree(),
                    ));
                }
            },
            _ => {
                proof {
                    assert(false);
                }
            },
        }
    }

    /// Names the window the title bar shows.
    fn set_title(&mut self, name: String)
        requires
            old(self).wf(),
        ensures
            final(self).wf(),
            final(self).spec_title().window_name matches Some(n) && n@ == name@,
            final(self).spec_winbar() == old(self).spec_winbar(),
            final(self).spec_entry() == old(self).spec_entry(),
            final(self).root.tree().kind->Row_kids[1] == old(self).root.tree().kind->Row_kids[1],
            final(self).windows == old(self).windows,
            final(self).stash == old(self).stash,
            final(self).current_window == old(self).current_window,
            final(self).conversations == old(self).conversations,
            final(self).password_command == old(self).password_command,
            final(self).connection == old(self).connection,
            final(self).completion == old(self).completion,
            final(self).current_completion == old(self).current_completion,
            final(self).running == old(self).running,
            final(self).width == old(self).width,
            final(self).height == old(self).height,
    {
        proof {
            lemma_trees_of(self.root.content->Lin_0.children@);
        }
        match &mut self.root.content {
            Content::Lin(l) => {
                let ghost gch = l.children@;
                let mut node = l.children.remove(0);
                match &mut node.content {
                    Content::Title(tb) => {
                        tb.set_name(name);
                    },
                    _ => {
                        proof {
                            assert(false);
                        }
                    },
                }
                node.dirty = true;
                l.children.insert(0, node);
                proof {
                    lemma_trees_of(l.children@);
                    assert(trees_of(l.children@) =~= trees_of(gch).update(
                        0,
                        l.children@[0].tree(),
                    ));
                }
            },
            _ => {
                proof {
                    assert(false);
                }
            },
        }
    }

    /// Swaps the frame's child for another, handing the old one back, and
    /// reports the frame's last computed bounds (top, left, width, height).
    /// Swaps the frame's child for another, handing the old one back together
    /// with the frame's last computed bounds (top, left, width, height).
    fn swap_frame_child(&mut self, child: Option<ViewNode>) -> (r: (
        Option<ViewNode>,
        u16,
        u16,
        u16,
        u16,
    ))
        requires
            old(self).wf(),
        ensures
            final(self).wf(),
            r.1 == old(self).spec_frame_node().y,
            r.2 == old(self).spec_frame_node().x,
            r.3 == old(self).spec_frame_node().w,
            r.4 == old(self).spec_frame_node().h,
            old(self).spec_frame_kids().len() <= 1,
            r.0 is Some <==> old(self).spec_frame_kids().len() > 0,
            r.0 matches Some(v) ==> v.tree() == old(self).spec_frame_kids()[0],
            final(self).spec_frame_kids() == (match child {
                Some(v) => seq![v.tree()],
                None => Seq::<VNode>::empty(),
            }),
            final(self).spec_frame_node().x == old(self).spec_frame_node().x,
            final(self).spec_frame_node().y == old(self).spec_frame_node().y,
            final(self).spec_frame_node().w == old(self).spec_frame_node().w,
            final(self).spec_frame_node().h == old(self).spec_frame_node().h,
            final(self).root.tree().kind->Row_kids[0] == old(self).root.tree().kind->Row_kids[0],
            final(self).root.tree().kind->Row_kids[2] == old(self).root.tree().kind->Row_kids[2],
            final(self).root.tree().kind->Row_kids[3] == old(self).root.tree().kind->Row_kids[3],
            final(self).spec_winbar() == old(self).spec_winbar(),
            final(self).spec_entry() == old(self).spec_entry(),
            final(self).windows == old(self).windows,
            final(self).stash == old(self).stash,
            final(self).current_window == old(self).current_window,
            final(self).conversations == old(self).conversations,
            final(self).password_command == old(self).password_command,
            final(self).connection == old(self).connection,
            final(self).completion == old(self).completion,
            final(self).current_completion == old(self).current_completion,
            final(self).running == old(self).running,
            final(self).width == old(self).width,
            final(self).height == old(self).height,
    {
        proof {
            lemma_trees_of(self.root.content->Lin_0.children@);
        }
        let mut slot = child;
        let mut top: u16 = 0;
        let mut left: u16 = 0;
        let mut fw: u16 = 0;
        let mut fh: u16 = 0;
        match &mut self.root.content {
            Content::Lin(l) => {
                let ghost gch = l.children@;
                let mut node = l.children.remove(1);
                proof {
                    assert(node == gch[1]);
                    assert(node.tree() == old(self).spec_frame_node());
                }
                top = node.y;
                left = node.x;
                fw = node.w;
                fh = node.h;
                match &mut node.content {
                    Content::Shell(f) => {
                        let mut boxed = match slot {
                            Some(v) => Some(Box::new(v)),
                            None => None,
                        };
                        core::mem::swap(&mut f.child, &mut boxed);
                        slot = match boxed {
                            Some(b) => Some(*b),
                            None => None,
                        };
                    },
                    _ => {
                        proof {
                            assert(false);
                        }
                    },
                }
                node.dirty = true;
                l.children.insert(1, node);
                proof {
                    lemma_trees_of(l.children@);
                    assert(trees_of(l.children@) =~= trees_of(gch).update(
                        1,
                        l.children@[1].tree(),
                    ));
                }
            },
            _ => {
                proof {
                    assert(false);
                }
            },
        }
        (slot, top, left, fw, fh)
    }
}

/// How one paging step moves a scrollback shown at height `h`: one viewport
/// towards the oldest or the newest rows, clamped to the scrollable range;
/// the log itself never changes.
pub open spec fn spec_paged(b0: BufferedWin, b1: BufferedWin, h: u16, up: bool) -> bool {
    &&& b1.buf@ == b0.buf@
    &&& b1.seen@ == b0.seen@
    &&& (up ==> b1.view == crate::buffer::page_up_spec(
        b0.view as nat,
        crate::buffer::eff_total(b0.buf@),
        h as nat,
    ))
    &&& (!up ==> b1.view == crate::buffer::page_down_spec(b0.view as nat, h as nat))
}

/// How one delivery changes a window's view: a bare scrollback ingests the
/// message, a row window ingests it in its leading scrollback child.
pub open spec fn spec_window_received(v0: ViewNode, v1: ViewNode, m: crate::message::Message) -> bool {
    &&& (v0.content is Buffer ==> v1.content is Buffer && crate::buffer::spec_received(
        v0.content->Buffer_0,
        v1.content->Buffer_0,
        m,
    ))
    &&& (v0.content is Lin ==> {
        let k0 = v0.content->Lin_0.children@;
        let k1 = v1.content->Lin_0.children@;
        &&& v1.content is Lin
        &&& k1.len() == k0.len()
        &&& (k0.len() > 0 && k0[0].content is Buffer ==> k1[0].content is Buffer
            && crate::buffer::spec_received(
            k0[0].content->Buffer_0,
            k1[0].content->Buffer_0,
            m,
        ))
    })
}

/// How one paging step changes a window's view: each scrollback moves one of
/// its own viewports, clamped.
pub open spec fn spec_window_paged(v0: ViewNode, v1: ViewNode, up: bool) -> bool {
    &&& (v0.content is Buffer ==> v1.content is Buffer && spec_paged(
        v0.content->Buffer_0,
        v1.content->Buffer_0,
        v0.h,
        up,
    ))
    &&& (v0.content is Lin ==> {
        let k0 = v0.content->Lin_0.children@;
        let k1 = v1.content->Lin_0.children@;
        &&& v1.content is Lin
        &&& k1.len() == k0.len()
        &&& (k0.len() > 0 && k0[0].content is Buffer ==> k1[0].content is Buffer && spec_paged(
            k0[0].content->Buffer_0,
            k1[0].content->Buffer_0,
            k0[0].h,
            up,
        ))
    })
}

/// `spec_window_received`, read off the mathematical trees.
pub open spec fn spec_tree_received(t0: VNode, t1: VNode, m: crate::message::Message) -> bool {
    &&& (t0.kind is Buffer ==> t1.kind is Buffer && crate::buffer::spec_received(
        t0.kind->Buffer_0,
        t1.kind->Buffer_0,
        m,
    ))
    &&& (t0.kind is Row ==> {
        let k0 = t0.kind->Row_kids;
        let k1 = t1.kind->Row_kids;
        &&& t1.kind is Row
        &&& k1.len() == k0.len()
        &&& (k0.len() > 0 && k0[0].kind is Buffer ==> k1[0].kind is Buffer
            && crate::buffer::spec_received(k0[0].kind->Buffer_0, k1[0].kind->Buffer_0, m))
    })
}

/// `spec_window_paged`, read off the mathematical trees.
pub open spec fn spec_tree_paged(t0: VNode, t1: VNode, up: bool) -> bool {
    &&& (t0.kind is Buffer ==> t1.kind is Buffer && spec_paged(
        t0.kind->Buffer_0,
        t1.kind->Buffer_0,
        t0.h,
        up,
    ))
    &&& (t0.kind is Row ==> {
        let k0 = t0.kind->Row_kids;
        let k1 = t1.kind->Row_kids;
        &&& t1.kind is Row
        &&& k1.len() == k0.len()
        &&& (k0.len() > 0 && k0[0].kind is Buffer ==> k1[0].kind is Buffer && spec_paged(
            k0[0].kind->Buffer_0,
            k1[0].kind->Buffer_0,
            k0[0].h,
            up,
        ))
    })
}

/// The exec-level delivery relation carries over to the trees.
proof fn lemma_tree_received(v0: ViewNode, v1: ViewNode, m: crate::message::Message)
    requires
        spec_window_received(v0, v1, m),
    ensures
        spec_tree_received(v0.tree(), v1.tree(), m),
{
    if v0.content is Lin {
        lemma_trees_of(v0.content->Lin_0.children@);
        lemma_trees_of(v1.content->Lin_0.children@);
    }
}

/// The exec-level paging relation carries over to the trees.
proof fn lemma_tree_paged(v0: ViewNode, v1: ViewNode, up: bool)
    requires
        spec_window_paged(v0, v1, up),
    ensures
        spec_tree_paged(v0.tree(), v1.tree(), up),
{
    if v0.content is Lin {
        lemma_trees_of(v0.content->Lin_0.children@);
        lemma_trees_of(v1.content->Lin_0.children@);
    }
}

/// A window view holding exactly one freshly opened scrollback: a bare
/// scrollback, or a row whose only child is one.
pub open spec fn spec_fresh_scrollback(v: ViewNode) -> bool {
    ||| (v.content is Buffer && spec_empty_buffer(v.content->Buffer_0))
    ||| (v.content is Lin && v.content->Lin_0.children@.len() == 1
        && v.content->Lin_0.children@[0].content is Buffer && spec_empty_buffer(
        v.content->Lin_0.children@[0].content->Buffer_0,
    ))
}

/// A scrollback that has seen nothing yet.
pub open spec fn spec_empty_buffer(b: BufferedWin) -> bool {
    &&& b.wf()
    &&& b.buf@.len() == 0
    &&& b.seen@.len() == 0
    &&& b.view == 0
}

/// Inserts a message into every scrollback inside a window's view.  For a
/// bare scrollback window this is exactly one ingestion: a duplicate
/// identity changes nothing, a fresh one is appended.
#[verifier::loop_isolation(false)]
fn deliver_message(v: ViewNode, m: &crate::message::Message) -> (r: ViewNode)
    ensures
        v.content is Title || v.content is Bar || v.content is Entry || v.content is Shell
            ==> r == v,
        v.content is Buffer ==> r.content is Buffer && crate::buffer::spec_received(
            v.content->Buffer_0,
            r.content->Buffer_0,
            *m,
        ),
        v.content is Lin ==> {
            let k0 = v.content->Lin_0.children@;
            let k1 = r.content->Lin_0.children@;
            &&& r.content is Lin
            &&& r.content->Lin_0.orientation == v.content->Lin_0.orientation
            &&& k1.len() == k0.len()
            &&& (k0.len() > 0 && k0[0].content is Buffer ==> k1[0].content is Buffer
                && crate::buffer::spec_received(
                k0[0].content->Buffer_0,
                k1[0].content->Buffer_0,
                *m,
            ))
        },
        r.x == v.x && r.y == v.y && r.w == v.w && r.h == v.h,
        r.width == v.width && r.height == v.height,
    decreases v,
{
    let ghost gv = v;
    let ViewNode { width, height, x, y, w, h, dirty, content } = v;
    match content {
        Content::Buffer(mut b) => {
            b.insert(m.duplicate());
            ViewNode { width, height, x, y, w, h, dirty: true, content: Content::Buffer(b) }
        },
        Content::Lin(l) => {
            let Linear { orientation, children } = l;
            let mut rest = children;
            let mut out: Vec<ViewNode> = Vec::new();
            let ghost gch = rest@;
            proof {
                assert(rest@ =~= gch.subrange(0, gch.len() as int));
            }
            while rest.len() > 0
                invariant
                    out@.len() + rest@.len() == gch.len(),
                    rest@ == gch.subrange(out@.len() as int, gch.len() as int),
                    gv.content is Lin,
                    gv.content->Lin_0.children@ == gch,
                    out@.len() > 0 && gch[0].content is Buffer ==> out@[0].content is Buffer
                        && crate::buffer::spec_received(
                        gch[0].content->Buffer_0,
                        out@[0].content->Buffer_0,
                        *m,
                    ),
                decreases rest@.len(),
            {
                let ghost k = out@.len() as int;
                let ghost grest = rest@;
                let c = rest.remove(0);
                proof {
                    assert(c == gch[k]);
                    assert(rest@ =~= gch.subrange(k + 1, gch.len() as int));
                    let gc = gv.content;
                    let gl = gc->Lin_0;
                    assert(decreases_to!(gv => gc));
                    assert(decreases_to!(gc => gl));
                    assert(decreases_to!(gl => gl.children));
                    assert(decreases_to!(gl.children => gl.children[k]));
                    assert(c == gl.children[k]);
                }
                let c2 = deliver_message(c, m);
                out.push(c2);
            }
            ViewNode {
                width,
                height,
                x,
                y,
                w,
                h,
                dirty: true,
                content: Content::Lin(Linear { orientation, children: out }),
            }
        },
        other => {
            ViewNode { width, height, x, y, w, h, dirty, content: other }
        },
    }
}

/// Pages every scrollback inside a window's view, each by its own resolved
/// height.  For a bare scrollback window the offset moves exactly one
/// viewport, clamped to the scrollable range.
#[verifier::loop_isolation(false)]
fn page_view(v: ViewNode, up: bool) -> (r: ViewNode)
    ensures
        v.content is Title || v.content is Bar || v.content is Entry || v.content is Shell
            ==> r == v,
        v.content is Buffer ==> spec_paged(v.content->Buffer_0, r.content->Buffer_0, v.h, up)
            && r.content is Buffer,
        v.content is Lin ==> {
            let k0 = v.content->Lin_0.children@;
            let k1 = r.content->Lin_0.children@;
            &&& r.content is Lin
            &&& r.content->Lin_0.orientation == v.content->Lin_0.orientation
            &&& k1.len() == k0.len()
            &&& (k0.len() > 0 && k0[0].content is Buffer ==> k1[0].content is Buffer
                && spec_paged(k0[0].content->Buffer_0, k1[0].content->Buffer_0, k0[0].h, up))
        },
        r.x == v.x && r.y == v.y && r.w == v.w && r.h == v.h,
        r.width == v.width && r.height == v.height,
    decreases v,
{
    let ghost gv = v;
    let ViewNode { width, height, x, y, w, h, dirty, content } = v;
    match content {
        Content::Buffer(mut b) => {
            if up {
                b.page_up(h as usize);
            } else {
                b.page_down(h as usize);
            }
            ViewNode { width, height, x, y, w, h, dirty: true, content: Content::Buffer(b) }
        },
        Content::Lin(l) => {
            let Linear { orientation, children } = l;
            let mut rest = children;
            let mut out: Vec<ViewNode> = Vec::new();
            let ghost gch = rest@;
            proof {
                assert(rest@ =~= gch.subrange(0, gch.len() as int));
            }
            while rest.len() > 0
                invariant
                    out@.len() + rest@.len() == gch.len(),
                    rest@ == gch.subrange(out@.len() as int, gch.len() as int),
                    gv.content is Lin,
                    gv.content->Lin_0.children@ == gch,
                    out@.len() > 0 && gch[0].content is Buffer ==> out@[0].content is Buffer
                        && spec_paged(
                        gch[0].content->Buffer_0,
                        out@[0].content->Buffer_0,
                        gch[0].h,
                        up,
                    ),
                decreases rest@.len(),
            {
                let ghost k = out@.len() as int;
                let c = rest.remove(0);
                proof {
                    assert(c == gch[k]);
                    assert(rest@ =~= gch.subrange(k + 1, gch.len() as int));
                    let gc = gv.content;
                    let gl = gc->Lin_0;
                    assert(decreases_to!(gv => gc));
                    assert(decreases_to!(gc => gl));
                    assert(decreases_to!(gl => gl.children));
                    assert(decreases_to!(gl.children => gl.children[k]));
                    assert(c == gl.children[k]);
                }
                let c2 = page_view(c, up);
                out.push(c2);
            }
            ViewNode {
                width,
                height,
                x,
                y,
                w,
                h,
                dirty: true,
                content: Content::Lin(Linear { orientation, children: out }),
            }
        },
        other => {
            ViewNode { width, height, x, y, w, h, dirty, content: other }
        },
    }
}

/// Builds the view of a new conversation window: a one-to-one chat is a bare
/// scrollback, a room is a horizontal layout around its scrollback.
pub fn conversation_view(kind: ConversationKind) -> (r: ViewNode)
    ensures
        crate::view::vn_wf(r.tree()),
        r.width is MatchParent && r.height is MatchParent,
        kind is Chat ==> r.content is Buffer,
        kind is Group ==> ({
            &&& r.content is Lin
            &&& r.content->Lin_0.orientation is Horizontal
            &&& r.content->Lin_0.children@.len() == 1
            &&& r.content->Lin_0.children@[0].content is Buffer
        }),
        spec_fresh_scrollback(r),
{
    let chat = ViewNode {
        width: Dimension::MatchParent,
        height: Dimension::MatchParent,
        x: 0,
        y: 0,
        w: 0,
        h: 0,
        dirty: true,
        content: Content::Buffer(BufferedWin::new()),
    };
    proof {
        assert(crate::view::vn_wf(chat.tree()));
    }
    match kind {
        ConversationKind::Chat => chat,
        ConversationKind::Group => {
            let mut children: Vec<ViewNode> = Vec::new();
            children.push(chat);
            let r = ViewNode {
                width: Dimension::MatchParent,
                height: Dimension::MatchParent,
                x: 0,
                y: 0,
                w: 0,
                h: 0,
                dirty: true,
                content: Content::Lin(
                    Linear { orientation: Orientation::Horizontal, children },
                ),
            };
            proof {
                lemma_trees_of(r.content->Lin_0.children@);
            }
            r
        },
    }
}

/// The first stash index bearing `name`, or the length when none does.
pub open spec fn stash_pos(s: Seq<(String, ViewNode)>, name: Seq<char>) -> int {
    stash_pos_from(s, name, 0)
}

/// The first index at or after `i` bearing `name`, or the length.
pub open spec fn stash_pos_from(s: Seq<(String, ViewNode)>, name: Seq<char>, i: int) -> int
    decreases s.len() - i,
{
    if i < 0 || i >= s.len() {
        s.len() as int
    } else if s[i].0@ == name {
        i
    } else {
        stash_pos_from(s, name, i + 1)
    }
}

/// `stash_pos_from` points at the first match it has found.
proof fn lemma_stash_pos_found(s: Seq<(String, ViewNode)>, name: Seq<char>, i: int)
    requires
        0 <= i < s.len(),
        s[i].0@ == name,
        forall|j: int| 0 <= j < i ==> s[j].0@ != name,
    ensures
        stash_pos(s, name) == i,
    decreases i,
{
    lemma_stash_pos_step(s, name, 0, i);
}

/// Scanning past non-matching entries does not move the answer.
proof fn lemma_stash_pos_step(s: Seq<(String, ViewNode)>, name: Seq<char>, k: int, i: int)
    requires
        0 <= k <= i < s.len(),
        s[i].0@ == name,
        forall|j: int| 0 <= j < i ==> s[j].0@ != name,
    ensures
        stash_pos_from(s, name, k) == i,
    decreases i - k,
{
    if k < i {
        lemma_stash_pos_step(s, name, k + 1, i);
    }
}

/// With no match anywhere, `stash_pos` answers the length.
proof fn lemma_stash_pos_none(s: Seq<(String, ViewNode)>, name: Seq<char>)
    requires
        forall|j: int| 0 <= j < s.len() ==> s[j].0@ != name,
    ensures
        stash_pos(s, name) == s.len(),
{
    lemma_stash_pos_none_from(s, name, 0);
}

/// With no match at or after `i`, the answer from `i` is the length.
proof fn lemma_stash_pos_none_from(s: Seq<(String, ViewNode)>, name: Seq<char>, i: int)
    requires
        0 <= i <= s.len(),
        forall|j: int| 0 <= j < s.len() ==> s[j].0@ != name,
    ensures
        stash_pos_from(s, name, i) == s.len(),
    decreases s.len() - i,
{
    if i < s.len() {
        lemma_stash_pos_none_from(s, name, i + 1);
    }
}

/// The first index of `name` in a window list, or the length when absent.
pub open spec fn win_pos(ws: Seq<String>, name: Seq<char>) -> int {
    win_pos_from(ws, name, 0)
}

/// The first index at or after `i` bearing `name`, or the length.
pub open spec fn win_pos_from(ws: Seq<String>, name: Seq<char>, i: int) -> int
    decreases ws.len() - i,
{
    if i < 0 || i >= ws.len() {
        ws.len() as int
    } else if ws[i]@ == name {
        i
    } else {
        win_pos_from(ws, name, i + 1)
    }
}

/// `win_pos_from` points at the first match it has found.
proof fn lemma_win_pos_found(ws: Seq<String>, name: Seq<char>, i: int)
    requires
        0 <= i < ws.len(),
        ws[i]@ == name,
        forall|j: int| 0 <= j < i ==> ws[j]@ != name,
    ensures
        win_pos(ws, name) == i,
{
    lemma_win_pos_step(ws, name, 0, i);
}

/// Scanning past non-matching entries does not move the answer.
proof fn lemma_win_pos_step(ws: Seq<String>, name: Seq<char>, k: int, i: int)
    requires
        0 <= k <= i < ws.len(),
        ws[i]@ == name,
        forall|j: int| 0 <= j < i ==> ws[j]@ != name,
    ensures
        win_pos_from(ws, name, k) == i,
    decreases i - k,
{
    if k < i {
        lemma_win_pos_step(ws, name, k + 1, i);
    }
}

impl Ui {
    /// Whether a window of this name is tracked.
    pub open spec fn spec_window_known(self, name: Seq<char>) -> bool {
        exists|i: int| 0 <= i < self.windows@.len() && self.windows@[i]@ == name
    }

    /// Whether a window of this name is tracked.
    pub fn window_known(&self, name: &String) -> (r: bool)
        ensures
            r == self.spec_window_known(name@),
    {
        let mut i: usize = 0;
        while i < self.windows.len()
            invariant
                i <= self.windows@.len(),
                forall|j: int| 0 <= j < i ==> self.windows@[j]@ != name@,
            decreases self.windows@.len() - i,
        {
            if self.windows[i].eq(name) {
                proof {
                    assert(self.spec_window_known(name@));
                }
                return true;
            }
            i = i + 1;
        }
        false
    }

    /// Registers a window: its name joins the tracked list and the window
    /// bar, and its view is stashed until it is shown.
    pub fn add_window(&mut self, name: String, view: ViewNode)
        requires
            old(self).wf(),
        ensures
            final(self).wf(),
            final(self).windows.deep_view() == old(self).windows.deep_view().push(name@),
            final(self).stash@ == old(self).stash@.push((name, view)),
            final(self).spec_winbar().windows.deep_view() == old(
                self,
            ).spec_winbar().windows.deep_view().push(name@),
            final(self).spec_winbar().current_window == old(self).spec_winbar().current_window,
            final(self).spec_winbar().highlighted == old(self).spec_winbar().highlighted,
            final(self).spec_entry() == old(self).spec_entry(),
            final(self).root.tree().kind->Row_kids[0] == old(self).root.tree().kind->Row_kids[0],
            final(self).root.tree().kind->Row_kids[1] == old(self).root.tree().kind->Row_kids[1],
            final(self).current_window == old(self).current_window,
            final(self).conversations == old(self).conversations,
            final(self).password_command == old(self).password_command,
            final(self).connection == old(self).connection,
            final(self).completion == old(self).completion,
            final(self).current_completion == old(self).current_completion,
            final(self).running == old(self).running,
            final(self).width == old(self).width,
            final(self).height == old(self).height,
    {
        let mut bar = self.take_bar();
        bar.add_window(name.clone());
        self.put_bar(bar);
        self.windows.push(name.clone());
        self.stash.push((name, view));
    }

    /// Shows the named window: the frame's child is swapped for the stashed
    /// view, which is measured and laid out against the frame's last known
    /// bounds; the title and window bars follow.  An unknown name changes
    /// nothing.
    /// Shows the named window: the frame's child is swapped for the first
    /// stashed view bearing the name, measured and laid out against the
    /// frame's last known bounds; the replaced view is stashed back under the
    /// previous current name; the title and window bars follow.  An unknown
    /// name changes nothing.
    pub fn change_window(&mut self, window: &String)
        requires
            old(self).wf(),
        ensures
            final(self).wf(),
            final(self).windows == old(self).windows,
            final(self).conversations == old(self).conversations,
            final(self).password_command == old(self).password_command,
            final(self).connection == old(self).connection,
            final(self).completion == old(self).completion,
            final(self).current_completion == old(self).current_completion,
            final(self).running == old(self).running,
            final(self).width == old(self).width,
            final(self).height == old(self).height,
            final(self).spec_entry() == old(self).spec_entry(),
            ({
                let stash0 = old(self).stash@;
                let at = stash_pos(stash0, window@);
                let is_cur = (old(self).current_window matches Some(c) && c@ == window@);
                let was_shown = old(self).spec_frame_kids().len() > 0;
                let had_current = old(self).current_window is Some;
                &&& (is_cur ==> {
                    &&& final(self).current_window matches Some(c2) && c2@ == window@
                    &&& final(self).spec_winbar().spec_is_current(window@)
                    &&& !final(self).spec_winbar().spec_highlighted(window@)
                    &&& final(self).spec_title().window_name matches Some(n) && n@ == window@
                    &&& final(self).stash@ == stash0
                    &&& final(self).spec_frame_kids() == old(self).spec_frame_kids()
                })
                &&& (!is_cur && at >= stash0.len() ==> *final(self) == *old(self))
                &&& (!is_cur && at < stash0.len() ==> {
                    &&& final(self).current_window matches Some(c2) && c2@ == window@
                    &&& final(self).spec_winbar().spec_is_current(window@)
                    &&& !final(self).spec_winbar().spec_highlighted(window@)
                    &&& final(self).spec_title().window_name matches Some(n) && n@ == window@
                    &&& final(self).spec_frame_kids() == seq![
                        spec_placed(
                            spec_measured(
                                stash0[at].1.tree(),
                                Some(old(self).spec_frame_node().w),
                                Some(old(self).spec_frame_node().h),
                            ),
                            old(self).spec_frame_node().y,
                            old(self).spec_frame_node().x,
                        ),
                    ]
                    &&& (was_shown && had_current ==> {
                        &&& final(self).stash@.len() == stash0.len()
                        &&& (forall|j: int|
                            0 <= j < stash0.len() - 1 ==> final(self).stash@[j]
                                == #[trigger] stash0.remove(at)[j])
                        &&& final(self).stash@.last().0@
                            == old(self).current_window->Some_0@
                        &&& final(self).stash@.last().1.tree() == old(self).spec_frame_kids()[0]
                    })
                    &&& (!(was_shown && had_current) ==> final(self).stash@ == stash0.remove(
                        at,
                    ))
                })
            }),
    {
        let is_current = match &self.current_window {
            Some(c) => c.eq(window),
            None => false,
        };
        if is_current {
            let mut bar = self.take_bar();
            bar.set_current_window(window.clone());
            self.put_bar(bar);
            self.set_title(window.clone());
            self.current_window = Some(window.clone());
            return ;
        }
        let mut found: Option<usize> = None;
        let mut i: usize = 0;
        while i < self.stash.len()
            invariant
                *self == *old(self),
                old(self).wf(),
                i <= self.stash@.len(),
                found is None ==> forall|j: int|
                    0 <= j < i ==> self.stash@[j].0@ != window@,
                found matches Some(a) ==> a < i && self.stash@[a as int].0@ == window@
                    && (forall|j: int| 0 <= j < a ==> self.stash@[j].0@ != window@),
            decreases self.stash@.len() - i,
        {
            if found.is_none() && self.stash[i].0.eq(window) {
                found = Some(i);
            }
            i = i + 1;
        }
        proof {
            match found {
                Some(a) => {
                    lemma_stash_pos_found(self.stash@, window@, a as int);
                },
                None => {
                    lemma_stash_pos_none(self.stash@, window@);
                },
            }
        }
        match found {
            Some(at) => {
                if at < self.stash.len() {
                    let (name, view) = self.stash.remove(at);
                    let (swapped, top, left, fw, fh) = self.swap_frame_child(Some(view));
                    match swapped {
                        Some(prev) => {
                            match &self.current_window {
                                Some(c) => {
                                    let prev_name = c.clone();
                                    self.stash.push((prev_name, prev));
                                },
                                None => {},
                            }
                        },
                        None => {},
                    }
                    let (back, _t2, _l2, _w2, _h2) = self.swap_frame_child(None);
                    match back {
                        Some(mut shown) => {
                            shown.measure(Some(fw), Some(fh));
                            shown.layout(top, left);
                            let (_again, _t3, _l3, _w3, _h3) = self.swap_frame_child(
                                Some(shown),
                            );
                        },
                        None => {},
                    }
                    let mut bar = self.take_bar();
                    bar.set_current_window(name.clone());
                    self.put_bar(bar);
                    self.set_title(name.clone());
                    self.current_window = Some(name);
                }
            },
            None => {},
        }
    }

    /// Shows the window after the current one: with no current window the
    /// first window is shown; from the last one nothing changes.  The current
    /// window, if any, must be among the tracked ones.
    pub fn next_window(&mut self)
        requires
            old(self).wf(),
            old(self).current_window matches Some(c) ==> exists|i: int|
                0 <= i < old(self).windows@.len() && old(self).windows@[i]@ == c@,
        ensures
            final(self).wf(),
            final(self).windows == old(self).windows,
            final(self).running == old(self).running,
            ({
                let ws = old(self).windows@;
                match old(self).current_window {
                    Some(c) => {
                        let i = win_pos(ws, c@);
                        &&& (i + 1 < ws.len() ==> ((final(self).current_window matches Some(n)
                            && n@ == ws[i + 1]@) || *final(self) == *old(self)))
                        &&& (i + 1 >= ws.len() ==> *final(self) == *old(self))
                    },
                    None => {
                        &&& (ws.len() > 0 ==> ((final(self).current_window matches Some(n)
                            && n@ == ws[0]@) || *final(self) == *old(self)))
                        &&& (ws.len() == 0 ==> *final(self) == *old(self))
                    },
                }
            }),
    {
        let mut index: Option<usize> = None;
        match &self.current_window {
            Some(c) => {
                let mut i: usize = 0;
                while i < self.windows.len()
                    invariant
                        *self == *old(self),
                        i <= self.windows@.len(),
                        old(self).current_window matches Some(cc) && cc@ == c@,
                        index is None ==> forall|j: int|
                            0 <= j < i ==> self.windows@[j]@ != c@,
                        index matches Some(a) ==> a < i && self.windows@[a as int]@ == c@ && (
                        forall|j: int| 0 <= j < a ==> self.windows@[j]@ != c@),
                    decreases self.windows@.len() - i,
                {
                    if index.is_none() && self.windows[i].eq(c) {
                        index = Some(i);
                    }
                    i = i + 1;
                }
                proof {
                    match index {
                        Some(a) => {
                            lemma_win_pos_found(self.windows@, c@, a as int);
                        },
                        None => {
                            assert(false);
                        },
                    }
                }
            },
            None => {},
        }
        match index {
            Some(at) => {
                if at + 1 < self.windows.len() {
                    let name = self.windows[at + 1].clone();
                    self.change_window(&name);
                }
            },
            None => {
                if self.windows.len() > 0 {
                    let name = self.windows[0].clone();
                    self.change_window(&name);
                }
            },
        }
    }

    /// Shows the window before the current one: with no current window the
    /// first window is shown; from the first one nothing changes.  The
    /// current window, if any, must be among the tracked ones.
    pub fn prev_window(&mut self)
        requires
            old(self).wf(),
            old(self).current_window matches Some(c) ==> exists|i: int|
                0 <= i < old(self).windows@.len() && old(self).windows@[i]@ == c@,
        ensures
            final(self).wf(),
            final(self).windows == old(self).windows,
            final(self).running == old(self).running,
            ({
                let ws = old(self).windows@;
                match old(self).current_window {
                    Some(c) => {
                        let i = win_pos(ws, c@);
                        &&& (i > 0 ==> ((final(self).current_window matches Some(n) && n@ == ws[
                            i - 1]@) || *final(self) == *old(self)))
                        &&& (i == 0 ==> *final(self) == *old(self))
                    },
                    None => {
                        &&& (ws.len() > 0 ==> ((final(self).current_window matches Some(n)
                            && n@ == ws[0]@) || *final(self) == *old(self)))
                        &&& (ws.len() == 0 ==> *final(self) == *old(self))
                    },
                }
            }),
    {
        let mut index: Option<usize> = None;
        match &self.current_window {
            Some(c) => {
                let mut i: usize = 0;
                while i < self.windows.len()
                    invariant
                        *self == *old(self),
                        i <= self.windows@.len(),
                        old(self).current_window matches Some(cc) && cc@ == c@,
                        index is None ==> forall|j: int|
                            0 <= j < i ==> self.windows@[j]@ != c@,
                        index matches Some(a) ==> a < i && self.windows@[a as int]@ == c@ && (
                        forall|j: int| 0 <= j < a ==> self.windows@[j]@ != c@),
                    decreases self.windows@.len() - i,
                {
                    if index.is_none() && self.windows[i].eq(c) {
                        index = Some(i);
                    }
                    i = i + 1;
                }
                proof {
                    match index {
                        Some(a) => {
                            lemma_win_pos_found(self.windows@, c@, a as int);
                        },
                        None => {
                            assert(false);
                        },
                    }
                }
            },
            None => {},
        }
        match index {
            Some(at) => {
                if at > 0 {
                    let name = self.windows[at - 1].clone();
                    self.change_window(&name);
                }
            },
            None => {
                if self.windows.len() > 0 {
                    let name = self.windows[0].clone();
                    self.change_window(&name);
                }
            },
        }
    }

    /// Remeasures, lays out and repaints the whole tree against the stored
    /// terminal size; what the sink must draw is appended to `out`.
    pub fn refresh(&mut self, out: &mut Vec<crate::paint::PaintOp>)
        requires
            old(self).wf(),
        ensures
            final(self).wf(),
            final(self).root.tree() == spec_placed(
                spec_measured(old(self).root.tree(), Some(old(self).width), Some(old(self).height)),
                1,
                1,
            ),
            final(out).deep_view() == old(out).deep_view() + crate::paint::spec_node_ops(
                final(self).root.tree(),
            ),
            final(self).spec_winbar() == old(self).spec_winbar(),
            final(self).spec_title() == old(self).spec_title(),
            final(self).spec_entry() == old(self).spec_entry(),
            erased_all(final(self).spec_frame_kids()) == erased_all(old(self).spec_frame_kids()),
            final(self).spec_frame_kids().len() == old(self).spec_frame_kids().len(),
            final(self).windows == old(self).windows,
            final(self).stash == old(self).stash,
            final(self).current_window == old(self).current_window,
            final(self).conversations == old(self).conversations,
            final(self).password_command == old(self).password_command,
            final(self).connection == old(self).connection,
            final(self).completion == old(self).completion,
            final(self).current_completion == old(self).current_completion,
            final(self).running == old(self).running,
            final(self).width == old(self).width,
            final(self).height == old(self).height,
    {
        let ghost t0 = self.root.tree();
        let w = self.width;
        let h = self.height;
        self.root.measure(Some(w), Some(h));
        proof {
            lemma_measured_erased(t0, Some(w), Some(h));
            lemma_ui_shape_preserved(t0, self.root.tree());
        }
        let ghost t1 = self.root.tree();
        self.root.layout(1, 1);
        proof {
            lemma_placed_erased(t1, 1, 1);
            lemma_ui_shape_preserved(t0, self.root.tree());
            lemma_erased_all(t0.kind->Row_kids[1].kind->Shell_kids);
            lemma_erased_all(self.root.tree().kind->Row_kids[1].kind->Shell_kids);
        }
        self.root.redraw(out);
    }
}


/// The candidates that keep a given prefix.
pub open spec fn spec_kept(cands: Seq<Seq<char>>, p: Seq<char>) -> Seq<Seq<char>>
    decreases cands.len(),
{
    if cands.len() == 0 {
        Seq::empty()
    } else {
        let rest = spec_kept(cands.subrange(1, cands.len() as int), p);
        if crate::strutil::spec_has_prefix(cands[0], p) {
            seq![cands[0]] + rest
        } else {
            rest
        }
    }
}

/// The console window's view: a horizontal row around one scrollback that
/// has seen nothing yet.
pub open spec fn spec_console_kid(t: VNode) -> bool {
    &&& t.kind is Row
    &&& t.kind->Row_horiz
    &&& t.kind->Row_kids.len() == 1
    &&& t.kind->Row_kids[0].kind is Buffer
    &&& t.kind->Row_kids[0].kind->Buffer_0.buf@.len() == 0
    &&& t.kind->Row_kids[0].kind->Buffer_0.view == 0
}

/// Whether a node shows the console does not depend on its geometry.
proof fn lemma_console_kid_erased(a: VNode, b: VNode)
    requires
        erased(a) == erased(b),
    ensures
        spec_console_kid(a) == spec_console_kid(b),
{
    assert(erased(a).kind == erased(b).kind);
    if a.kind is Row && b.kind is Row {
        let ak = a.kind->Row_kids;
        let bk = b.kind->Row_kids;
        assert(erased_all(ak) == erased_all(bk));
        lemma_erased_all(ak);
        lemma_erased_all(bk);
        if ak.len() == 1 {
            assert(erased(ak[0]) == erased(bk[0]));
        }
    }
}

/// The window a message belongs to: its sender for an inbound message, its
/// recipient for an outbound one, and the console for the client's own
/// reports.
pub open spec fn spec_window_name(m: crate::message::Message) -> Seq<char> {
    match m {
        crate::message::Message::Incoming(x) => x.from@,
        crate::message::Message::Outgoing(x) => x.to@,
        crate::message::Message::Log(_) => "console"@,
    }
}

impl Ui {
    /// Whether a conversation with this counterpart exists.
    pub open spec fn spec_conversation_known(self, name: Seq<char>) -> bool {
        exists|i: int| 0 <= i < self.conversations@.len() && self.conversations@[i].jid@ == name
    }

    /// Whether a conversation with this counterpart exists.
    fn conversation_known(&self, name: &String) -> (r: bool)
        ensures
            r == self.spec_conversation_known(name@),
    {
        let mut i: usize = 0;
        while i < self.conversations.len()
            invariant
                i <= self.conversations@.len(),
                forall|j: int| 0 <= j < i ==> self.conversations@[j].jid@ != name@,
            decreases self.conversations@.len() - i,
        {
            if self.conversations[i].jid.eq(name) {
                proof {
                    assert(self.spec_conversation_known(name@));
                }
                return true;
            }
            i = i + 1;
        }
        false
    }

    /// Opens a conversation: registers it and gives it a window.
    pub fn add_conversation(&mut self, jid: String, kind: ConversationKind)
        requires
            old(self).wf(),
        ensures
            final(self).wf(),
            final(self).spec_conversation_known(jid@),
            final(self).windows.deep_view() == old(self).windows.deep_view().push(jid@),
            final(self).conversations@.len() == old(self).conversations@.len() + 1,
            forall|i: int|
                0 <= i < old(self).conversations@.len() ==> final(self).conversations@[i] == old(
                    self,
                ).conversations@[i],
            final(self).conversations@.last().jid@ == jid@,
            final(self).conversations@.last().kind == kind,
            final(self).stash@.len() == old(self).stash@.len() + 1,
            forall|i: int|
                0 <= i < old(self).stash@.len() ==> final(self).stash@[i] == old(self).stash@[i],
            final(self).stash@.last().0@ == jid@,
            spec_fresh_scrollback(final(self).stash@.last().1),
            kind is Chat ==> final(self).stash@.last().1.content is Buffer,
            final(self).spec_winbar().windows.deep_view() == old(
                self,
            ).spec_winbar().windows.deep_view().push(jid@),
            final(self).spec_winbar().current_window == old(self).spec_winbar().current_window,
            final(self).spec_winbar().highlighted == old(self).spec_winbar().highlighted,
            final(self).spec_entry() == old(self).spec_entry(),
            final(self).spec_title() == old(self).spec_title(),
            final(self).spec_frame_kids() == old(self).spec_frame_kids(),
            final(self).current_window == old(self).current_window,
            final(self).password_command == old(self).password_command,
            final(self).connection == old(self).connection,
            final(self).completion == old(self).completion,
            final(self).current_completion == old(self).current_completion,
            final(self).running == old(self).running,
            final(self).width == old(self).width,
            final(self).height == old(self).height,
    {
        let view = conversation_view(kind);
        self.conversations.push(Conversation { jid: jid.clone(), kind });
        proof {
            assert(self.conversations@[self.conversations@.len() - 1].jid@ == jid@);
        }
        self.add_window(jid, view);
    }

    /// Hands a message to the named window, wherever it is.
    /// Hands a message to the named window, wherever it is: the frame's child
    /// when that window is on show, the matching stashed views otherwise, in
    /// which case the window bar is marked for unseen activity.  Other
    /// windows are untouched.
    fn deliver_to_window(&mut self, name: &String, m: &crate::message::Message)
        requires
            old(self).wf(),
        ensures
            final(self).wf(),
            final(self).running == old(self).running,
            final(self).windows == old(self).windows,
            final(self).current_window == old(self).current_window,
            final(self).conversations == old(self).conversations,
            final(self).password_command == old(self).password_command,
            final(self).connection == old(self).connection,
            final(self).completion == old(self).completion,
            final(self).current_completion == old(self).current_completion,
            final(self).width == old(self).width,
            final(self).height == old(self).height,
            final(self).spec_entry() == old(self).spec_entry(),
            final(self).spec_title() == old(self).spec_title(),
            final(self).stash@.len() == old(self).stash@.len(),
            ({
                let is_cur = (old(self).current_window matches Some(c) && c@ == name@);
                &&& (is_cur ==> {
                    &&& final(self).stash@ == old(self).stash@
                    &&& final(self).spec_winbar() == old(self).spec_winbar()
                    &&& (old(self).spec_frame_kids().len() == 0
                        ==> final(self).spec_frame_kids().len() == 0)
                    &&& (old(self).spec_frame_kids().len() > 0 ==> {
                        &&& final(self).spec_frame_kids().len() == 1
                        &&& spec_tree_received(
                            old(self).spec_frame_kids()[0],
                            final(self).spec_frame_kids()[0],
                            *m,
                        )
                    })
                })
                &&& (!is_cur ==> {
                    &&& final(self).spec_frame_kids() == old(self).spec_frame_kids()
                    &&& (forall|i: int|
                        0 <= i < old(self).stash@.len() && old(self).stash@[i].0@ != name@
                            ==> final(self).stash@[i] == #[trigger] old(self).stash@[i])
                    &&& (forall|i: int|
                        0 <= i < old(self).stash@.len() ==> final(self).stash@[i].0
                            == #[trigger] old(self).stash@[i].0)
                    &&& (forall|i: int|
                        0 <= i < old(self).stash@.len() && old(self).stash@[i].0@ == name@
                            ==> spec_window_received(
                            #[trigger] old(self).stash@[i].1,
                            final(self).stash@[i].1,
                            *m,
                        ))
                    &&& (final(self).spec_winbar().spec_highlighted(name@)
                        || final(self).spec_winbar().spec_is_current(name@))
                })
            }),
    {
        let is_current = match &self.current_window {
            Some(c) => c.eq(name),
            None => false,
        };
        if is_current {
            let (child, _top, _left, _w, _h) = self.swap_frame_child(None);
            match child {
                Some(v) => {
                    let ghost gv = v;
                    let v2 = deliver_message(v, m);
                    proof {
                        lemma_tree_received(gv, v2, *m);
                    }
                    let (_none, _t, _l, _w2, _h2) = self.swap_frame_child(Some(v2));
                },
                None => {
                    let (_none, _t, _l, _w2, _h2) = self.swap_frame_child(None);
                },
            }
        } else {
            let n = self.stash.len();
            let mut i: usize = 0;
            while i < n
                invariant
                    i <= n,
                    n == old(self).stash@.len(),
                    self.stash@.len() == n,
                    old(self).wf(),
                    self.wf(),
                    *self == (Ui { stash: self.stash, ..*old(self) }),
                    forall|j: int|
                        i <= j < n ==> self.stash@[j] == #[trigger] old(self).stash@[j],
                    forall|j: int|
                        0 <= j < i && old(self).stash@[j].0@ != name@ ==> self.stash@[j]
                            == #[trigger] old(self).stash@[j],
                    forall|j: int|
                        0 <= j < i ==> self.stash@[j].0 == #[trigger] old(self).stash@[j].0,
                    forall|j: int|
                        0 <= j < i && old(self).stash@[j].0@ == name@ ==> spec_window_received(
                            #[trigger] old(self).stash@[j].1,
                            self.stash@[j].1,
                            *m,
                        ),
                decreases n - i,
            {
                if self.stash[i].0.eq(name) {
                    let ghost gstash = self.stash@;
                    let (nm, v) = self.stash.remove(i);
                    let v2 = deliver_message(v, m);
                    self.stash.insert(i, (nm, v2));
                    proof {
                        assert(self.stash@ =~= gstash.update(i as int, (nm, v2)));
                    }
                }
                i = i + 1;
            }
            let mut bar = self.take_bar();
            bar.highlight_window(name);
            self.put_bar(bar);
        }
    }

    /// Handles an inbound or outbound message: a chat window is opened for a
    /// new counterpart, and the message goes to its window; the client's own
    /// reports go to the console window.
    /// Handles an inbound or outbound message: it lands, deduplicated by its
    /// identity, in the scrollback of the window its counterpart names (the
    /// console for the client's own reports), a chat conversation being
    /// opened for an unknown counterpart first; every other window's view is
    /// untouched, and a window not on show is marked for unseen activity.
    pub fn handle_message(&mut self, m: crate::message::Message)
        requires
            old(self).wf(),
        ensures
            final(self).wf(),
            final(self).running == old(self).running,
            final(self).current_window == old(self).current_window,
            final(self).connection == old(self).connection,
            final(self).password_command == old(self).password_command,
            final(self).completion == old(self).completion,
            final(self).spec_entry() == old(self).spec_entry(),
            ({
                let name = spec_window_name(m);
                let fresh = !(m is Log) && !old(self).spec_conversation_known(name);
                let is_cur = (old(self).current_window matches Some(c) && c@ == name);
                let n0 = old(self).stash@.len() as int;
                &&& (!fresh ==> final(self).windows == old(self).windows
                    && final(self).conversations == old(self).conversations
                    && final(self).stash@.len() == n0)
                &&& (fresh ==> {
                    &&& final(self).windows.deep_view() == old(self).windows.deep_view().push(
                        name,
                    )
                    &&& final(self).spec_conversation_known(name)
                    &&& final(self).conversations@.len() == old(self).conversations@.len() + 1
                    &&& final(self).conversations@.last().jid@ == name
                    &&& final(self).conversations@.last().kind is Chat
                    &&& final(self).stash@.len() == n0 + 1
                    &&& final(self).stash@[n0].0@ == name
                })
                &&& (forall|i: int|
                    0 <= i < n0 && old(self).stash@[i].0@ != name ==> final(self).stash@[i]
                        == #[trigger] old(self).stash@[i])
                &&& (!is_cur ==> (forall|i: int|
                    0 <= i < n0 && old(self).stash@[i].0@ == name ==> spec_window_received(
                        #[trigger] old(self).stash@[i].1,
                        final(self).stash@[i].1,
                        m,
                    )))
                &&& (!is_cur ==> final(self).spec_winbar().spec_highlighted(name)
                    || final(self).spec_winbar().spec_is_current(name))
                &&& (!is_cur ==> final(self).spec_frame_kids() == old(self).spec_frame_kids())
                &&& (!is_cur && fresh ==> {
                    &&& final(self).stash@[n0].1.content is Buffer
                    &&& final(self).stash@[n0].1.content->Buffer_0.buf@ == seq![m]
                    &&& final(self).stash@[n0].1.content->Buffer_0.view == 0
                    &&& final(self).stash@[n0].1.content->Buffer_0.wf()
                })
                &&& (is_cur ==> {
                    &&& (forall|i: int|
                        0 <= i < n0 ==> final(self).stash@[i] == #[trigger] old(self).stash@[i])
                    &&& (old(self).spec_frame_kids().len() > 0 ==> {
                        &&& final(self).spec_frame_kids().len() == 1
                        &&& spec_tree_received(
                            old(self).spec_frame_kids()[0],
                            final(self).spec_frame_kids()[0],
                            m,
                        )
                    })
                })
            }),
    {
        let name: String = match &m {
            crate::message::Message::Incoming(xm) => xm.from.clone(),
            crate::message::Message::Outgoing(xm) => xm.to.clone(),
            crate::message::Message::Log(_) => crate::strutil::str_to_string("console"),
        };
        proof {
            assert(name@ == spec_window_name(m));
        }
        let is_log = match &m {
            crate::message::Message::Log(_) => true,
            _ => false,
        };
        if !is_log && !self.conversation_known(&name) {
            self.add_conversation(name.clone(), ConversationKind::Chat);
        }
        self.deliver_to_window(&name, &m);
    }

    /// Pages every window's scrollback one viewport up or down, each by its
    /// own resolved height, and asks the history store for older messages of
    /// the current window when paging up.
    fn page_windows(&mut self, up: bool, actions: &mut Vec<crate::event::Action>)
        requires
            old(self).wf(),
        ensures
            final(self).wf(),
            final(self).running == old(self).running,
            final(self).windows == old(self).windows,
            final(self).current_window == old(self).current_window,
            final(self).conversations == old(self).conversations,
            final(self).password_command == old(self).password_command,
            final(self).connection == old(self).connection,
            final(self).completion == old(self).completion,
            final(self).current_completion == old(self).current_completion,
            final(self).width == old(self).width,
            final(self).height == old(self).height,
            final(self).spec_entry() == old(self).spec_entry(),
            final(self).spec_title() == old(self).spec_title(),
            final(self).spec_winbar() == old(self).spec_winbar(),
            final(self).stash@.len() == old(self).stash@.len(),
            forall|i: int|
                0 <= i < old(self).stash@.len() ==> final(self).stash@[i].0 == #[trigger] old(
                    self,
                ).stash@[i].0,
            forall|i: int|
                0 <= i < old(self).stash@.len() ==> spec_window_paged(
                    #[trigger] old(self).stash@[i].1,
                    final(self).stash@[i].1,
                    up,
                ),
            final(self).spec_frame_kids().len() == old(self).spec_frame_kids().len(),
            old(self).spec_frame_kids().len() > 0 ==> spec_tree_paged(
                old(self).spec_frame_kids()[0],
                final(self).spec_frame_kids()[0],
                up,
            ),
            (old(self).current_window matches Some(c) ==> (up ==> final(actions)@.len() == old(
                actions,
            )@.len() + 1 && (final(actions)@.last()
                matches crate::event::Action::LoadHistory(w) && w@ == c@))),
            (!(up && old(self).current_window is Some) ==> final(actions)@ == old(actions)@),
    {
        let n = self.stash.len();
        let mut i: usize = 0;
        while i < n
            invariant
                i <= n,
                n == old(self).stash@.len(),
                self.stash@.len() == n,
                old(self).wf(),
                self.wf(),
                *self == (Ui { stash: self.stash, ..*old(self) }),
                forall|j: int| i <= j < n ==> self.stash@[j] == #[trigger] old(self).stash@[j],
                forall|j: int|
                    0 <= j < i ==> self.stash@[j].0 == #[trigger] old(self).stash@[j].0,
                forall|j: int|
                    0 <= j < i ==> spec_window_paged(
                        #[trigger] old(self).stash@[j].1,
                        self.stash@[j].1,
                        up,
                    ),
            decreases n - i,
        {
            let ghost gstash = self.stash@;
            let (nm, v) = self.stash.remove(i);
            let v2 = page_view(v, up);
            self.stash.insert(i, (nm, v2));
            proof {
                assert(self.stash@ =~= gstash.update(i as int, (nm, v2)));
            }
            i = i + 1;
        }
        let (child, _top, _left, _w, _h) = self.swap_frame_child(None);
        match child {
            Some(v) => {
                let ghost gv = v;
                let v2 = page_view(v, up);
                proof {
                    lemma_tree_paged(gv, v2, up);
                }
                let (_none, _t, _l, _w2, _h2) = self.swap_frame_child(Some(v2));
            },
            None => {},
        }
        if up {
            match &self.current_window {
                Some(c) => {
                    actions.push(crate::event::Action::LoadHistory(c.clone()));
                },
                None => {},
            }
        }
    }

    /// Submits the input line.  A password answers the pending command; a
    /// line opening with the marker is tokenized and runs as a command, or
    /// reports its parse error; any other non-empty line goes to the current
    /// conversation as an outgoing message.
    pub fn submit_line(&mut self, actions: &mut Vec<crate::event::Action>)
        requires
            old(self).wf(),
        ensures
            final(self).wf(),
            final(self).running == old(self).running,
            final(self).spec_winbar() == old(self).spec_winbar(),
            final(self).spec_title() == old(self).spec_title(),
            final(self).spec_entry().buf@.len() == 0,
            ({
                let entry = old(self).spec_entry();
                let text = entry.buf@;
                let before = old(actions)@;
                let after = final(actions)@;
                &&& (!entry.password && text.len() > 0 && text[0] == '/'
                    && crate::command::parse_ok(text) ==> after.len() == before.len() + 1 && (
                after.last() matches crate::event::Action::RunCommand(c)
                    && c.args.deep_view() == crate::command::parse_args(text)))
                &&& (!entry.password && text.len() > 0 && text[0] == '/'
                    && !crate::command::parse_ok(text) ==> after.len() == before.len() + 1 && (
                after.last() matches crate::event::Action::CommandError(s)
                    && s@ == crate::command::parse_fail_msg(text)))
                &&& (!entry.password && text.len() > 0 && text[0] != '/' && (old(
                    self,
                ).current_window matches Some(cur) && old(self).spec_conversation_known(cur@)
                    && old(self).connection is Some) ==> after.len() == before.len() + 1 && (
                after.last() matches crate::event::Action::SendMessage(m) && m is Outgoing
                    && m.spec_body() == text && m->Outgoing_0.to@
                    == old(self).current_window->Some_0@))
                &&& (old(self).password_command matches Some(pc) ==> (entry.password ==> ({
                    &&& after.len() == before.len() + 1
                    &&& after.last() matches crate::event::Action::RunCommand(c) && c.cursor
                        == pc.cursor && c.args.deep_view() == pc.args.deep_view().push(text)
                    &&& final(self).password_command is None
                })))
                &&& (entry.password && old(self).password_command is None ==> after == before
                    && final(self).password_command is None)
            }),
    {
        let mut entry = self.take_entry();
        let (text, was_password) = entry.validate();
        self.put_entry(entry);
        if was_password {
            let mut pending: Option<Command> = None;
            core::mem::swap(&mut self.password_command, &mut pending);
            match pending {
                Some(mut cmd) => {
                    cmd.args.push(text);
                    actions.push(crate::event::Action::RunCommand(cmd));
                },
                None => {},
            }
            return ;
        }
        let n = text.as_str().unicode_len();
        if n == 0 {
            return ;
        }
        if text.as_str().get_char(0) == '/' {
            match Command::try_from(text.as_str()) {
                Ok(cmd) => {
                    actions.push(crate::event::Action::RunCommand(cmd));
                },
                Err(e) => {
                    actions.push(
                        crate::event::Action::CommandError(crate::strutil::str_to_string(e)),
                    );
                },
            }
            return ;
        }
        let current = match &self.current_window {
            Some(c) => Some(c.clone()),
            None => None,
        };
        match current {
            Some(name) => {
                if self.conversation_known(&name) {
                    match &self.connection {
                        Some(us) => {
                            let from = us.duplicate();
                            let to = crate::message::Jid::Bare(name.clone());
                            let msg = crate::message::Message::outgoing(
                                crate::message::fresh_id(),
                                &from,
                                &to,
                                text.as_str(),
                            );
                            actions.push(crate::event::Action::SendMessage(msg));
                        },
                        None => {},
                    }
                }
            },
            None => {},
        }
    }

    /// Starts (or restarts) a completion cycle on the input line: a password
    /// line bounces the key onwards; otherwise the line is tokenized, fresh
    /// candidates are requested on a cache miss, and a cached cycle replaces
    /// the argument under the caret and echoes the re-assembled line.
    pub fn complete_line(&mut self, actions: &mut Vec<crate::event::Action>)
        requires
            old(self).wf(),
        ensures
            final(self).wf(),
            final(self).running == old(self).running,
            final(self).spec_winbar() == old(self).spec_winbar(),
            final(self).spec_title() == old(self).spec_title(),
            ({
                let entry = old(self).spec_entry();
                let text = entry.buf@;
                let before = old(actions)@;
                let after = final(actions)@;
                &&& (!entry.password && text.len() > 0 && text[0] == '/'
                    && crate::command::parse_ok(text) && old(self).completion is None
                    ==> after.len() == before.len() + 1 && (
                after.last() matches crate::event::Action::NeedCompletion(c)
                    && c.args.deep_view() == crate::command::parse_args(text)
                    && c.cursor == crate::command::parse_cursor(text, entry.cursor as int)))
                &&& (old(self).completion matches Some(cands) ==> (!entry.password
                    && text.len() > 0 && text[0] == '/' && crate::command::parse_ok(text)
                    && cands@.len() > 0 ==> ({
                    let args0 = crate::command::parse_args(text);
                    let cur0 = crate::command::parse_cursor(text, entry.cursor as int);
                    let cand = cands@[old(self).current_completion as int]@;
                    let args1 = if cur0 < args0.len() {
                        args0.update(cur0, cand)
                    } else {
                        args0.push(cand)
                    };
                    &&& after.len() == before.len() + 1
                    &&& after.last() matches crate::event::Action::Emit(
                        crate::event::Event::Completed(s),
                    ) && s@ == crate::command::assemble_seq(args1)
                })))
            }),
    {
        let entry = self.take_entry();
        let text = entry.content();
        let cursor = entry.cursor;
        let was_password = entry.password;
        self.put_entry(entry);
        if was_password {
            actions.push(
                crate::event::Action::Emit(
                    crate::event::Event::Key(crate::event::Key::Char('\t')),
                ),
            );
            return ;
        }
        let n = text.as_str().unicode_len();
        if n == 0 {
            return ;
        }
        if text.as_str().get_char(0) != '/' {
            return ;
        }
        match Command::parse_with_cursor(text.as_str(), cursor) {
            Ok(mut cmd) => {
                let cache_ready = match &self.completion {
                    Some(c) => c.len() > 0,
                    None => false,
                };
                let cache_missing = match &self.completion {
                    None => true,
                    Some(_) => false,
                };
                if cache_missing {
                    actions.push(crate::event::Action::NeedCompletion(cmd));
                } else if cache_ready {
                    self.autocomplete(&mut cmd);
                    let line = cmd.assemble();
                    actions.push(
                        crate::event::Action::Emit(crate::event::Event::Completed(line)),
                    );
                }
            },
            Err(_) => {},
        }
    }

    /// Caches the completion candidates for the command under edit, keeping
    /// only those that extend the argument under the caret, and restarts the
    /// cycle.
    pub fn provide_completion(
        &mut self,
        candidates: Vec<String>,
        command: &crate::command::Command,
    )
        requires
            old(self).wf(),
        ensures
            final(self).wf(),
            final(self).running == old(self).running,
            final(self).completion is Some,
            final(self).current_completion == 0,
            command.cursor < command.args@.len()
                ==> final(self).completion->Some_0.deep_view() == spec_kept(
                candidates.deep_view(),
                command.args@[command.cursor as int]@,
            ),
            command.cursor >= command.args@.len()
                ==> final(self).completion->Some_0.deep_view() == candidates.deep_view(),
    {
        if command.cursor < command.args.len() {
            let prefix = command.args[command.cursor].clone();
            let ghost gc = candidates.deep_view();
            let mut kept: Vec<String> = Vec::new();
            let mut rest = candidates;
            proof {
                assert(rest.deep_view() =~= gc.subrange(0, gc.len() as int));
                assert(kept.deep_view() + spec_kept(rest.deep_view(), prefix@) =~= spec_kept(
                    gc,
                    prefix@,
                ));
            }
            while rest.len() > 0
                invariant
                    prefix@ == command.args@[command.cursor as int]@,
                    spec_kept(gc, prefix@) == kept.deep_view() + spec_kept(
                        rest.deep_view(),
                        prefix@,
                    ),
                decreases rest@.len(),
            {
                let ghost grest = rest.deep_view();
                let ghost gkept = kept.deep_view();
                let cand = rest.remove(0);
                proof {
                    assert(cand@ == grest[0]);
                    assert(rest.deep_view() =~= grest.subrange(1, grest.len() as int));
                }
                if crate::strutil::has_prefix(cand.as_str(), prefix.as_str()) {
                    kept.push(cand);
                    proof {
                        assert(kept.deep_view() =~= gkept.push(grest[0]));
                        assert(gkept.push(grest[0]) + spec_kept(rest.deep_view(), prefix@)
                            =~= gkept + (seq![grest[0]] + spec_kept(
                            rest.deep_view(),
                            prefix@,
                        )));
                    }
                }
            }
            proof {
                assert(spec_kept(rest.deep_view(), prefix@) =~= Seq::<Seq<char>>::empty());
                assert(kept.deep_view() + Seq::<Seq<char>>::empty() =~= kept.deep_view());
            }
            self.completion = Some(kept);
        } else {
            self.completion = Some(candidates);
        }
        self.current_completion = 0;
    }

    /// Brings the console up: clears the screen, opens the console window,
    /// shows it, and paints everything against the given terminal size.
    pub fn init(&mut self, width: u16, height: u16, out: &mut Vec<crate::paint::PaintOp>)
        requires
            old(self).wf(),
            old(self).windows@.len() == 0,
            old(self).stash@.len() == 0,
            old(self).current_window is None,
        ensures
            final(self).wf(),
            final(self).running == old(self).running,
            final(self).width == width,
            final(self).height == height,
            final(self).windows.deep_view() == old(self).windows.deep_view().push("console"@),
            final(self).current_window matches Some(c) && c@ == "console"@,
            final(self).spec_winbar().spec_is_current("console"@),
            final(self).spec_title().window_name matches Some(n) && n@ == "console"@,
            final(self).stash@.len() == 0,
            final(self).spec_frame_kids().len() == 1,
            spec_console_kid(final(self).spec_frame_kids()[0]),
            final(out).deep_view() == old(out).deep_view().push(crate::paint::PaintStep::Wipe)
                + crate::paint::spec_node_ops(final(self).root.tree()),
    {
        self.width = width;
        self.height = height;
        let ghost g_out = out.deep_view();
        out.push(crate::paint::PaintOp::Wipe);
        proof {
            assert(out.deep_view() =~= g_out.push(crate::paint::PaintStep::Wipe));
        }
        let name = crate::strutil::str_to_string("console");
        let console = conversation_view(ConversationKind::Group);
        let ghost g_console = console;
        proof {
            lemma_trees_of(console.content->Lin_0.children@);
            assert(spec_console_kid(console.tree()));
        }
        self.add_window(name.clone(), console);
        let ghost g_mid = *self;
        self.change_window(&name);
        proof {
            assert(g_mid.stash@[0].0@ == "console"@);
            assert(stash_pos(g_mid.stash@, name@) == 0) by {
                lemma_stash_pos_found(g_mid.stash@, name@, 0);
            }
            let fk = self.spec_frame_kids();
            let shown = spec_placed(
                spec_measured(
                    g_console.tree(),
                    Some(g_mid.spec_frame_node().w),
                    Some(g_mid.spec_frame_node().h),
                ),
                g_mid.spec_frame_node().y,
                g_mid.spec_frame_node().x,
            );
            assert(fk == seq![shown]);
            lemma_measured_erased(
                g_console.tree(),
                Some(g_mid.spec_frame_node().w),
                Some(g_mid.spec_frame_node().h),
            );
            lemma_placed_erased(
                spec_measured(
                    g_console.tree(),
                    Some(g_mid.spec_frame_node().w),
                    Some(g_mid.spec_frame_node().h),
                ),
                g_mid.spec_frame_node().y,
                g_mid.spec_frame_node().x,
            );
            lemma_console_kid_erased(shown, g_console.tree());
            assert(spec_console_kid(self.spec_frame_kids()[0]));
        }
        let ghost g_pre = *self;
        self.refresh(out);
        proof {
            lemma_erased_all(g_pre.spec_frame_kids());
            lemma_erased_all(self.spec_frame_kids());
            assert(erased(self.spec_frame_kids()[0]) == erased(g_pre.spec_frame_kids()[0]));
            lemma_console_kid_erased(self.spec_frame_kids()[0], g_pre.spec_frame_kids()[0]);
            assert(out.deep_view() =~= old(out).deep_view().push(crate::paint::PaintStep::Wipe)
                + crate::paint::spec_node_ops(self.root.tree()));
        }
    }

    /// Feeds one event into the root view: keys edit the input line or page
    /// the scrollback, structural events manage windows, messages land in
    /// their window, and the quit event clears the running flag.  Whatever
    /// the loop must do in return is appended to `actions`.
    pub fn on_event(
        &mut self,
        event: crate::event::Event,
        actions: &mut Vec<crate::event::Action>,
    )
        requires
            old(self).wf(),
        ensures
            final(self).wf(),
            event is Quit ==> !final(self).running,
            !(event is Quit) ==> final(self).running == old(self).running,
            (event matches crate::event::Event::Connected(j) ==> final(self).connection
                matches Some(j2) && j2 == j),
            (event matches crate::event::Event::Connected(j)
                ==> final(self).spec_winbar().connection matches Some(shown) && shown@
                == crate::message::spec_jid_text(j)),
            (event matches crate::event::Event::AddWindow(n, v)
                ==> final(self).windows.deep_view() == old(self).windows.deep_view().push(n@)
                && final(self).stash@ == old(self).stash@.push((n, v))
                && final(self).spec_winbar().windows.deep_view()
                == old(self).spec_winbar().windows.deep_view().push(n@)),
            (event matches crate::event::Event::ChangeWindow(n) ==> ((*final(self) == *old(
                self,
            )) || ({
                &&& final(self).current_window matches Some(c) && c@ == n@
                &&& final(self).spec_winbar().spec_is_current(n@)
                &&& final(self).spec_title().window_name matches Some(t) && t@ == n@
            }))),
            (event matches crate::event::Event::Win(n)
                ==> final(self).windows == old(self).windows),
            (event is Key || event is Resize || event is ReadPassword || event is Completed
                || event is Quit ==> final(self).spec_winbar() == old(self).spec_winbar()),
            (event matches crate::event::Event::Key(crate::event::Key::Char(c)) ==> (c != '\n'
                && c != '\t' ==> ({
                &&& final(self).spec_entry().buf@ == old(self).spec_entry().buf@.insert(
                    old(self).spec_entry().cursor as int,
                    c,
                )
                &&& final(self).spec_entry().cursor == old(self).spec_entry().cursor + 1
            }))),
            (event matches crate::event::Event::Key(crate::event::Key::Backspace) ==> ({
                let entry = old(self).spec_entry();
                &&& (entry.cursor == 0 ==> final(self).spec_entry().buf@ == entry.buf@)
                &&& (entry.cursor > 0 ==> final(self).spec_entry().buf@ == entry.buf@.remove(
                    entry.cursor - 1,
                ))
            })),
            (event matches crate::event::Event::Completed(s) ==> final(self).spec_entry().buf@
                == s@ && final(self).spec_entry().cursor == s@.len()),
            (event matches crate::event::Event::ReadPassword(cmd) ==> ({
                &&& final(self).password_command matches Some(c2) && c2 == cmd
                &&& final(self).spec_entry().password
                &&& final(self).spec_entry().buf@.len() == 0
            })),
            (event matches crate::event::Event::Win(n) ==> (!old(self).spec_window_known(n@)
                ==> ({
                &&& *final(self) == *old(self)
                &&& final(actions)@.len() == old(actions)@.len() + 1
                &&& final(actions)@.last() matches crate::event::Action::Log(s) && s@
                    == "Unknown window "@ + n@
            }))),
            (event matches crate::event::Event::Win(n) ==> (old(self).spec_window_known(n@)
                ==> ({
                &&& final(actions)@ == old(actions)@
                &&& ((final(self).current_window matches Some(c) && c@ == n@) || *final(self)
                    == *old(self))
            }))),
            ({
                let entry = old(self).spec_entry();
                let text = entry.buf@;
                let before = old(actions)@;
                let after = final(actions)@;
                &&& ((event matches crate::event::Event::Key(crate::event::Key::Char('\n')))
                    && !entry.password && text.len() > 0 && text[0] == '/'
                    && crate::command::parse_ok(text) ==> after.len() == before.len() + 1 && (
                after.last() matches crate::event::Action::RunCommand(c)
                    && c.args.deep_view() == crate::command::parse_args(text)))
                &&& ((event matches crate::event::Event::Key(crate::event::Key::Char('\n')))
                    && !entry.password && text.len() > 0 && text[0] == '/'
                    && !crate::command::parse_ok(text) ==> after.len() == before.len() + 1 && (
                after.last() matches crate::event::Action::CommandError(s)
                    && s@ == crate::command::parse_fail_msg(text)))
            }),
    {
        match event {
            crate::event::Event::Key(k) => {
                match k {
                    crate::event::Key::Char(c) => {
                        if c == '\t' {
                            self.complete_line(actions);
                        } else if c == '\n' {
                            self.reset_completion();
                            self.submit_line(actions);
                        } else {
                            self.reset_completion();
                            let mut entry = self.take_entry();
                            entry.key(c);
                            self.put_entry(entry);
                        }
                    },
                    crate::event::Key::Backspace => {
                        self.reset_completion();
                        let mut entry = self.take_entry();
                        entry.backspace();
                        self.put_entry(entry);
                    },
                    crate::event::Key::Delete => {
                        self.reset_completion();
                        let mut entry = self.take_entry();
                        entry.delete();
                        self.put_entry(entry);
                    },
                    crate::event::Key::Home => {
                        self.reset_completion();
                        let mut entry = self.take_entry();
                        entry.home();
                        self.put_entry(entry);
                    },
                    crate::event::Key::End => {
                        self.reset_completion();
                        let mut entry = self.take_entry();
                        entry.end();
                        self.put_entry(entry);
                    },
                    crate::event::Key::Up => {
                        self.reset_completion();
                        let mut entry = self.take_entry();
                        entry.previous();
                        self.put_entry(entry);
                    },
                    crate::event::Key::Down => {
                        self.reset_completion();
                        let mut entry = self.take_entry();
                        entry.next();
                        self.put_entry(entry);
                    },
                    crate::event::Key::Left => {
                        self.reset_completion();
                        let mut entry = self.take_entry();
                        entry.left();
                        self.put_entry(entry);
                    },
                    crate::event::Key::Right => {
                        self.reset_completion();
                        let mut entry = self.take_entry();
                        entry.right();
                        self.put_entry(entry);
                    },
                    crate::event::Key::Ctrl(c) => {
                        self.reset_completion();
                        if c == 'w' {
                            let mut entry = self.take_entry();
                            entry.backward_delete_word();
                            self.put_entry(entry);
                        }
                    },
                    crate::event::Key::PageUp => {
                        self.reset_completion();
                        self.page_windows(true, actions);
                    },
                    crate::event::Key::PageDown => {
                        self.reset_completion();
                        self.page_windows(false, actions);
                    },
                }
            },
            crate::event::Event::Resize(w, h) => {
                self.width = w;
                self.height = h;
            },
            crate::event::Event::Message(m) => {
                self.handle_message(m);
            },
            crate::event::Event::Connected(jid) => {
                let shown = jid.full_text();
                self.connection = Some(jid);
                let mut bar = self.take_bar();
                bar.set_connection(shown);
                self.put_bar(bar);
            },
            crate::event::Event::AddWindow(name, view) => {
                self.add_window(name, view);
            },
            crate::event::Event::ChangeWindow(name) => {
                self.change_window(&name);
            },
            crate::event::Event::Win(name) => {
                if self.window_known(&name) {
                    self.change_window(&name);
                } else {
                    let mut msg = crate::strutil::str_to_string("Unknown window ");
                    msg.append(name.as_str());
                    actions.push(crate::event::Action::Log(msg));
                }
            },
            crate::event::Event::ReadPassword(cmd) => {
                self.password_command = Some(cmd);
                let mut entry = self.take_entry();
                entry.read_password();
                self.put_entry(entry);
            },
            crate::event::Event::Completed(text) => {
                let mut entry = self.take_entry();
                entry.set_content(text.as_str());
                self.put_entry(entry);
            },
            crate::event::Event::Quit => {
                self.running = false;
            },
        }
    }
}

} // verus!
