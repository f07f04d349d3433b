use vstd::prelude::*;

verus! {

/// The title bar: shows the name of the current window.
#[derive(Debug, Clone)]
pub struct TitleBar {
    pub window_name: Option<String>,
}

impl TitleBar {
    /// A title bar with no window named yet.
    pub fn new() -> (r: TitleBar)
        ensures
            r.window_name is None,
    {
        TitleBar { window_name: None }
    }

    /// Names the current window.
    pub fn set_name(&mut self, name: String)
        ensures
            final(self).window_name matches Some(n) && n@ == name@,
    {
        self.window_name = Some(name);
    }
}

/// The window bar: the tracked window names in order, the current one, and
/// the set of windows with unseen activity.
#[derive(Debug, Clone)]
pub struct WinBar {
    pub connection: Option<String>,
    pub windows: Vec<String>,
    pub current_window: Option<String>,
    pub highlighted: Vec<String>,
}

impl WinBar {
    /// Whether `name` is in the highlighted set.
    pub open spec fn spec_highlighted(self, name: Seq<char>) -> bool {
        exists|i: int| 0 <= i < self.highlighted@.len() && self.highlighted@[i]@ == name
    }

    /// Whether `name` is the current window.
    pub open spec fn spec_is_current(self, name: Seq<char>) -> bool {
        match self.current_window {
            Some(c) => c@ == name,
            None => false,
        }
    }

    /// The current window is never highlighted, and no window is highlighted
    /// twice.
    pub open spec fn wf(self) -> bool {
        &&& (match self.current_window {
            Some(c) => !self.spec_highlighted(c@),
            None => true,
        })
        &&& forall|i: int, j: int|
            0 <= i < j < self.highlighted@.len() ==> self.highlighted@[i]@
                != self.highlighted@[j]@
    }

    /// An empty window bar.
    pub fn new() -> (r: WinBar)
        ensures
            r.wf(),
            r.windows@.len() == 0,
            r.highlighted@.len() == 0,
            r.connection is None,
            r.current_window is None,
    {
        WinBar { connection: None, windows: Vec::new(), current_window: None, highlighted: Vec::new() }
    }

    /// Appends a window to the tracked list.
    pub fn add_window(&mut self, window: String)
        requires
            old(self).wf(),
        ensures
            final(self).wf(),
            final(self).windows.deep_view() == old(self).windows.deep_view().push(window@),
            final(self).current_window == old(self).current_window,
            final(self).highlighted == old(self).highlighted,
            final(self).connection == old(self).connection,
    {
        let ghost g = self.windows.deep_view();
        self.windows.push(window);
        proof {
            assert(self.windows.deep_view() =~= g.push(self.windows@[g.len() as int]@));
        }
    }

    /// Makes `window` current and clears its highlight.
    pub fn set_current_window(&mut self, window: String)
        requires
            old(self).wf(),
        ensures
            final(self).wf(),
            final(self).spec_is_current(window@),
            !final(self).spec_highlighted(window@),
            forall|n: Seq<char>|
                n != window@ ==> (final(self).spec_highlighted(n) <==> old(self).spec_highlighted(
                    n,
                )),
            final(self).windows == old(self).windows,
            final(self).connection == old(self).connection,
    {
        let mut kept: Vec<String> = Vec::new();
        let mut i: usize = 0;
        while i < self.highlighted.len()
            invariant
                i <= self.highlighted@.len(),
                forall|j: int| 0 <= j < kept@.len() ==> kept@[j]@ != window@,
                forall|j: int|
                    0 <= j < kept@.len() ==> exists|k: int|
                        0 <= k < i && #[trigger] kept@[j]@ == #[trigger] self.highlighted@[k]@,
                forall|k: int|
                    0 <= k < i && self.highlighted@[k]@ != window@ ==> exists|j: int|
                        0 <= j < kept@.len() && kept@[j]@ == #[trigger] self.highlighted@[k]@,
                forall|j1: int, j2: int| 0 <= j1 < j2 < kept@.len() ==> kept@[j1]@ != kept@[j2]@,
                forall|i1: int, i2: int|
                    0 <= i1 < i2 < self.highlighted@.len() ==> self.highlighted@[i1]@
                        != self.highlighted@[i2]@,
            decreases self.highlighted@.len() - i,
        {
            let ghost gkept = kept@;
            if !self.highlighted[i].eq(&window) {
                let ghost gk = kept@.len() as int;
                let entry = self.highlighted[i].clone();
                proof {
                    assert(entry@ == self.highlighted@[i as int]@);
                }
                kept.push(entry);
                proof {
                    assert(kept@[gk]@ == self.highlighted@[i as int]@);
                }
            }
            proof {
                assert forall|k: int|
                    0 <= k < i + 1 && self.highlighted@[k]@ != window@ implies exists|j: int|
                    0 <= j < kept@.len() && #[trigger] kept@[j]@ == self.highlighted@[k]@ by {
                    if k < i {
                        let j0 = choose|j0: int|
                            0 <= j0 < gkept.len() && #[trigger] gkept[j0]@
                                == self.highlighted@[k]@;
                        assert(kept@[j0]@ == self.highlighted@[k]@);
                    } else {
                        assert(kept@[kept@.len() - 1]@ == self.highlighted@[k]@);
                    }
                }
            }
            i = i + 1;
        }
        self.highlighted = kept;
        self.current_window = Some(window);
    }

    /// Marks `window` as having unseen activity, unless it is the current
    /// window or already marked; marking twice is a no-op.
    pub fn highlight_window(&mut self, window: &String)
        requires
            old(self).wf(),
        ensures
            final(self).wf(),
            (old(self).spec_highlighted(window@) || old(self).spec_is_current(window@))
                ==> *final(self) == *old(self),
            !(old(self).spec_highlighted(window@) || old(self).spec_is_current(window@)) ==> {
                &&& final(self).spec_highlighted(window@)
                &&& forall|n: Seq<char>|
                    n != window@ ==> (final(self).spec_highlighted(n) <==> old(
                        self,
                    ).spec_highlighted(n))
            },
            final(self).windows == old(self).windows,
            final(self).current_window == old(self).current_window,
            final(self).connection == old(self).connection,
    {
        let is_current = match &self.current_window {
            Some(c) => c.eq(window),
            None => false,
        };
        if is_current {
            return ;
        }
        let mut i: usize = 0;
        while i < self.highlighted.len()
            invariant
                i <= self.highlighted@.len(),
                *self == *old(self),
                old(self).wf(),
                forall|j: int| 0 <= j < i ==> self.highlighted@[j]@ != window@,
            decreases self.highlighted@.len() - i,
        {
            if self.highlighted[i].eq(window) {
                proof {
                    assert(self.spec_highlighted(window@));
                }
                return ;
            }
            i = i + 1;
        }
        proof {
            assert(!old(self).spec_highlighted(window@));
        }
        let entry = window.clone();
        proof {
            assert(entry@ == window@);
        }
        self.highlighted.push(entry);
        proof {
            let last = self.highlighted@.len() - 1;
            assert(self.highlighted@[last]@ == window@);
            assert forall|n: Seq<char>| n != window@ implies (self.spec_highlighted(n) <==> old(
                self,
            ).spec_highlighted(n)) by {
                if self.spec_highlighted(n) {
                    let k = choose|k: int|
                        0 <= k < self.highlighted@.len() && self.highlighted@[k]@ == n;
                    assert(k < last);
                    assert(old(self).highlighted@[k]@ == n);
                }
                if old(self).spec_highlighted(n) {
                    let k = choose|k: int|
                        0 <= k < old(self).highlighted@.len() && old(self).highlighted@[k]@ == n;
                    assert(self.highlighted@[k]@ == n);
                }
            }
        }
    }

    /// Records which account the client is connected as.
    pub fn set_connection(&mut self, connection: String)
        requires
            old(self).wf(),
        ensures
            final(self).wf(),
            final(self).connection matches Some(c) && c@ == connection@,
            final(self).windows == old(self).windows,
            final(self).current_window == old(self).current_window,
            final(self).highlighted == old(self).highlighted,
    {
        self.connection = Some(connection);
    }
}


impl WinBar {
    /// Whether `name` is in the highlighted set.
    pub fn is_highlighted(&self, name: &String) -> (r: bool)
        ensures
            r == self.spec_highlighted(name@),
    {
        let mut i: usize = 0;
        while i < self.highlighted.len()
            invariant
                i <= self.highlighted@.len(),
                forall|j: int| 0 <= j < i ==> self.highlighted@[j]@ != name@,
            decreases self.highlighted@.len() - i,
        {
            if self.highlighted[i].eq(name) {
                proof {
                    assert(self.spec_highlighted(name@));
                }
                return true;
            }
            i = i + 1;
        }
        false
    }
}

} // verus!
