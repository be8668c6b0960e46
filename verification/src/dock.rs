use vstd::prelude::*;
use crate::text::str_equal;

verus! {

/// Side on which a new panel is split off a node of the dock.
#[derive(Clone, Copy, PartialEq, Eq, Structural, Debug)]
pub enum SplitSide {
    Below,
    Right,
}

/// Where a panel that is switched on goes in the dock.
#[derive(Clone, Copy, PartialEq, Eq, Structural, Debug)]
pub enum Placement {
    /// In a floating window of its own.
    Window,
    /// Into the focused leaf, when no node of the dock holds a tab.
    FocusedLeaf,
    /// Split off the node of the code editor (`beside_editor`, the root when
    /// the editor is not docked) or off the root, on `side`, the split
    /// fraction being `tenths` tenths.
    Split { beside_editor: bool, side: SplitSide, tenths: u8 },
}

/// Panels that open in a floating window.
pub open spec fn is_window_panel(name: Seq<char>) -> bool {
    name == "Documentation"@ || name == "Charmap Editor"@
}

/// The placement of the panel `name` when it is switched on; `dock_empty`
/// tells whether no node of the dock holds a tab.
pub open spec fn placement_of(name: Seq<char>, dock_empty: bool) -> Placement {
    if is_window_panel(name) {
        Placement::Window
    } else if dock_empty {
        Placement::FocusedLeaf
    } else if name == "Log"@ {
        Placement::Split { beside_editor: true, side: SplitSide::Below, tenths: 7 }
    } else if name == "Memory Editor"@ {
        Placement::Split { beside_editor: true, side: SplitSide::Right, tenths: 6 }
    } else if name == "File Explorer"@ {
        Placement::Split { beside_editor: true, side: SplitSide::Right, tenths: 8 }
    } else {
        Placement::Split { beside_editor: false, side: SplitSide::Right, tenths: 8 }
    }
}

/// Where the panel `name` goes when it is switched on.
pub fn panel_placement(name: &str, dock_empty: bool) -> (p: Placement)
    ensures
        p == placement_of(name@, dock_empty),
{
    if str_equal(name, "Documentation") || str_equal(name, "Charmap Editor") {
        Placement::Window
    } else if dock_empty {
        Placement::FocusedLeaf
    } else if str_equal(name, "Log") {
        Placement::Split { beside_editor: true, side: SplitSide::Below, tenths: 7 }
    } else if str_equal(name, "Memory Editor") {
        Placement::Split { beside_editor: true, side: SplitSide::Right, tenths: 6 }
    } else if str_equal(name, "File Explorer") {
        Placement::Split { beside_editor: true, side: SplitSide::Right, tenths: 8 }
    } else {
        Placement::Split { beside_editor: false, side: SplitSide::Right, tenths: 8 }
    }
}


/// Some name of `names` is `n`.
pub open spec fn has_name(names: Seq<String>, n: Seq<char>) -> bool {
    exists|i: int| 0 <= i < names.len() && (#[trigger] names[i])@ == n
}

proof fn lemma_has_name_push(names: Seq<String>, x: String, n: Seq<char>)
    ensures
        has_name(names.push(x), n) == (has_name(names, n) || x@ == n),
{
    let s = names.push(x);
    if has_name(names, n) {
        let i = choose|i: int| 0 <= i < names.len() && (#[trigger] names[i])@ == n;
        assert(s[i] == names[i]);
    }
    if x@ == n {
        assert(s[names.len() as int] == x);
    }
    if has_name(s, n) {
        let i = choose|i: int| 0 <= i < s.len() && (#[trigger] s[i])@ == n;
        if i < names.len() {
            assert(names[i] == s[i]);
        }
    }
}

/// The names of the panels that are shown, as a set of names.
pub struct OpenTabs {
    names: Vec<String>,
}

impl View for OpenTabs {
    type V = Set<Seq<char>>;

    closed spec fn view(&self) -> Set<Seq<char>> {
        Set::new(|n: Seq<char>| has_name(self.names@, n))
    }
}

impl OpenTabs {
    /// No panel shown.
    pub fn new() -> (t: Self)
        ensures
            t@ == Set::<Seq<char>>::empty(),
    {
        let t = OpenTabs { names: Vec::new() };
        assert(t@ =~= Set::<Seq<char>>::empty());
        t
    }

    /// Whether the panel `name` is shown.
    pub fn contains(&self, name: &str) -> (b: bool)
        ensures
            b == self@.contains(name@),
    {
        let mut i: usize = 0;
        while i < self.names.len()
            invariant
                i <= self.names@.len(),
                forall|k: int| 0 <= k < i ==> (#[trigger] self.names@[k])@ != name@,
            decreases self.names@.len() - i,
        {
            if str_equal(self.names[i].as_str(), name) {
                assert(has_name(self.names@, name@)) by {
                    assert(self.names@[i as int]@ == name@);
                }
                return true;
            }
            i = i + 1;
        }
        false
    }

    /// Whether no panel is shown.
    pub fn is_empty(&self) -> (b: bool)
        ensures
            b == (self@ == Set::<Seq<char>>::empty()),
    {
        if self.names.len() == 0 {
            assert(self@ =~= Set::<Seq<char>>::empty());
            true
        } else {
            assert(has_name(self.names@, self.names@[0]@));
            assert(self@.contains(self.names@[0]@));
            false
        }
    }

    /// Records the panel `name` as shown.
    pub fn insert(&mut self, name: &str)
        ensures
            final(self)@ == old(self)@.insert(name@),
    {
        if !self.contains(name) {
            let x = name.to_owned();
            proof {
                assert forall|n: Seq<char>| #[trigger] has_name(self.names@.push(x), n) == (has_name(
                    self.names@,
                    n,
                ) || x@ == n) by {
                    lemma_has_name_push(self.names@, x, n);
                }
            }
            self.names.push(x);
        }
        assert(self@ =~= old(self)@.insert(name@));
    }

    /// Records the panel `name` as no longer shown.
    pub fn remove(&mut self, name: &str)
        ensures
            final(self)@ == old(self)@.remove(name@),
    {
        let ghost before = self.names@;
        let mut kept: Vec<String> = Vec::new();
        let mut i: usize = 0;
        assert(before.take(0) =~= Seq::<String>::empty());
        while i < self.names.len()
            invariant
                i <= self.names@.len(),
                self.names@ == before,
                forall|n: Seq<char>|
                    #![trigger has_name(kept@, n)]
                    has_name(kept@, n) == (has_name(before.take(i as int), n) && n != name@),
            decreases self.names@.len() - i,
        {
            let x = self.names[i].clone();
            let keep = !str_equal(x.as_str(), name);
            let ghost k0 = kept@;
            if keep {
                kept.push(x);
            }
            proof {
                assert(before.take(i + 1) =~= before.take(i as int).push(before[i as int]));
                assert forall|n: Seq<char>| #![trigger has_name(kept@, n)] has_name(kept@, n) == (has_name(
                    before.take(i + 1),
                    n,
                ) && n != name@) by {
                    lemma_has_name_push(before.take(i as int), before[i as int], n);
                    if keep {
                        lemma_has_name_push(k0, x, n);
                    }
                    assert(has_name(k0, n) == (has_name(before.take(i as int), n) && n != name@));
                }
            }
            i = i + 1;
        }
        assert(before.take(i as int) =~= before);
        self.names = kept;
        assert forall|n: Seq<char>| #[trigger] self@.contains(n) == old(self)@.remove(name@).contains(n) by {
            assert(has_name(self.names@, n) == (has_name(before, n) && n != name@));
        }
        assert(self@ =~= old(self)@.remove(name@));
    }
}

/// What switching a panel does to the dock.
#[derive(Clone, Copy, PartialEq, Eq, Structural, Debug)]
pub enum PanelAction {
    /// The panel is taken out of the dock.
    Close,
    /// The panel is put in the dock where the placement says.
    Open(Placement),
}

/// Switches the panel `name`: a panel the dock shows (`shown`) closes,
/// another opens where [`panel_placement`] puts it. The set of shown panels
/// follows.
pub fn toggle_panel_step(open_tabs: &mut OpenTabs, name: &str, shown: bool, dock_empty: bool) -> (action:
    PanelAction)
    ensures
        shown ==> action == PanelAction::Close && final(open_tabs)@ == old(open_tabs)@.remove(name@),
        !shown ==> action == PanelAction::Open(placement_of(name@, dock_empty)) && final(open_tabs)@
            == old(open_tabs)@.insert(name@),
{
    if shown {
        open_tabs.remove(name);
        PanelAction::Close
    } else {
        let placement = panel_placement(name, dock_empty);
        open_tabs.insert(name);
        PanelAction::Open(placement)
    }
}

} // verus!
