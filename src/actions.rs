//! The actions offered for the object under the cursor, and which of them the player chose.
use vstd::prelude::*;
use vstd::seq_lib::{to_multiset_build, to_multiset_insert};
use crate::text::text_eq;

verus! {

/// A key of the keyboard, by the character it types.
#[derive(Clone, Copy, Debug, PartialEq, Eq, Structural, Hash)]
pub struct Key(pub char);

/// The keys in order of the characters they type.
pub open spec fn keys_sorted(s: Seq<Key>) -> bool {
    forall|i: int, j: int| 0 <= i < j < s.len() ==> (#[trigger] s[i]).0 as u32 <= (#[trigger] s[j]).0 as u32
}

/// The same keys, ordered by the characters they type.
pub fn sort_keys(keys: &Vec<Key>) -> (r: Vec<Key>)
    ensures
        keys_sorted(r@),
        r@.to_multiset() == keys@.to_multiset(),
{
    let mut out: Vec<Key> = Vec::new();
    let mut i: usize = 0;
    assert(out@ =~= keys@.take(0));
    while i < keys.len()
        invariant
            0 <= i <= keys@.len(),
            keys_sorted(out@),
            out@.to_multiset() == keys@.take(i as int).to_multiset(),
        decreases keys@.len() - i,
    {
        let k = keys[i];
        let mut pos: usize = out.len();
        while pos > 0 && out[pos - 1].0 as u32 > k.0 as u32
            invariant
                0 <= pos <= out@.len(),
                keys_sorted(out@),
                forall|j: int| pos <= j < out@.len() ==> (#[trigger] out@[j]).0 as u32 > k.0 as u32,
            decreases pos,
        {
            pos = pos - 1;
        }
        let ghost before = out@;
        out.insert(pos, k);
        proof {
            to_multiset_insert(before, pos as int, k);
            assert(keys@.take(i as int + 1) == keys@.take(i as int).push(k));
            to_multiset_build(keys@.take(i as int), k);
            assert forall|a: int, b: int| 0 <= a < b < out@.len() implies (#[trigger] out@[a]).0 as u32
                <= (#[trigger] out@[b]).0 as u32 by {
                if a < pos && b > pos {
                    assert(out@[b] == before[b - 1]);
                    if pos > 0 {
                        assert(before[a].0 as u32 <= before[pos - 1].0 as u32);
                    }
                } else if a > pos {
                    assert(out@[a] == before[a - 1]);
                    assert(out@[b] == before[b - 1]);
                } else if a == pos {
                    assert(out@[b] == before[b - 1]);
                }
            }
        }
        i = i + 1;
    }
    assert(keys@.take(i as int) == keys@);
    out
}

/// The actions offered for the object under the cursor.
pub struct PerObjectActions {
    actions: Vec<(Key, String)>,
    chosen: Option<String>,
    click_action: Option<String>,
    pub info_panel_open: bool,
}

impl PerObjectActions {
    /// Whether the info panel is open, which silences the keys.
    pub closed spec fn panel_open(&self) -> bool {
        self.info_panel_open
    }

    /// The actions offered so far, as key and label.
    pub closed spec fn offered(&self) -> Seq<(Key, Seq<char>)> {
        self.actions@.map_values(|a: (Key, String)| (a.0, a.1@))
    }

    /// The action the player chose from the info panel, not yet used.
    pub closed spec fn chosen_action(&self) -> Option<Seq<char>> {
        match self.chosen {
            Some(c) => Some(c@),
            None => None,
        }
    }

    /// The label of the action a left click performs.
    pub closed spec fn click(&self) -> Option<Seq<char>> {
        match self.click_action {
            Some(c) => Some(c@),
            None => None,
        }
    }

    pub fn new() -> (r: PerObjectActions)
        ensures
            r.offered().len() == 0,
            r.chosen_action() is None,
            r.click() is None,
            !r.panel_open(),
    {
        PerObjectActions {
            actions: Vec::new(),
            chosen: None,
            click_action: None,
            info_panel_open: false,
        }
    }

    /// Offers an action on `key`. It happens when the player chose it from the info panel, or
    /// pressed the key (`pressed`) while no info panel is open. The action that opens the info
    /// panel is not offered on the panel itself.
    pub fn action(&mut self, key: Key, label: String, pressed: bool) -> (r: bool)
        ensures
            final(self).panel_open() == old(self).panel_open(),
            final(self).click() == old(self).click(),
            old(self).chosen_action() == Some(label@) ==> r && final(self).chosen_action() is None
                && final(self).offered() == old(self).offered(),
            old(self).chosen_action() != Some(label@) ==> r == (!old(self).panel_open() && pressed)
                && final(self).chosen_action() == old(self).chosen_action() && final(self).offered()
                == if key == Key('i') && label@ == "show info"@ {
                old(self).offered()
            } else {
                old(self).offered().push((key, label@))
            },
    {
        let is_chosen = match &self.chosen {
            Some(c) => text_eq(c.as_str(), label.as_str()),
            None => false,
        };
        if is_chosen {
            self.chosen = None;
            return true;
        }
        let shows_info = key == Key('i') && text_eq(label.as_str(), "show info");
        if !shows_info {
            let ghost l = label@;
            self.actions.push((key, label));
            assert(self.offered() =~= old(self).offered().push((key, l)));
        }
        !self.info_panel_open && pressed
    }

    /// Hands out the actions offered so far, and forgets them.
    pub fn consume(&mut self) -> (r: Vec<(Key, String)>)
        ensures
            r@.map_values(|a: (Key, String)| (a.0, a.1@)) == old(self).offered(),
            final(self).offered().len() == 0,
            final(self).chosen_action() == old(self).chosen_action(),
            final(self).click() == old(self).click(),
            final(self).panel_open() == old(self).panel_open(),
    {
        let mut r = Vec::new();
        std::mem::swap(&mut r, &mut self.actions);
        r
    }

    /// Forgets the actions offered and the click action; a chosen action stays.
    pub fn reset(&mut self)
        ensures
            final(self).offered().len() == 0,
            final(self).click() is None,
            final(self).chosen_action() == old(self).chosen_action(),
            final(self).panel_open() == old(self).panel_open(),
    {
        self.actions = Vec::new();
        self.click_action = None;
    }

    /// The player chose an action from the info panel; it happens at its next offer.
    pub fn action_chosen(&mut self, action: String)
        requires
            old(self).chosen_action() is None,
        ensures
            final(self).chosen_action() == Some(action@),
            final(self).offered() == old(self).offered(),
            final(self).click() == old(self).click(),
            final(self).panel_open() == old(self).panel_open(),
    {
        self.chosen = Some(action);
    }

    /// Marks the point by which a chosen action must have been used.
    pub fn assert_chosen_used(&self)
        requires
            self.chosen_action() is None,
    {
    }

    /// Sets what a left click does; true where the player clicked (`clicked`).
    pub fn left_click(&mut self, label: String, clicked: bool) -> (r: bool)
        requires
            old(self).click() is None,
        ensures
            r == clicked,
            final(self).click() == Some(label@),
            final(self).offered() == old(self).offered(),
            final(self).chosen_action() == old(self).chosen_action(),
            final(self).panel_open() == old(self).panel_open(),
    {
        self.click_action = Some(label);
        clicked
    }

    /// The keys of the actions offered, in order, none while the info panel is open; and the
    /// label of the click action.
    pub fn get_active_keys(&self) -> (r: (Vec<Key>, Option<String>))
        ensures
            keys_sorted(r.0@),
            self.panel_open() ==> r.0@.len() == 0,
            !self.panel_open() ==> r.0@.to_multiset() == self.offered().map_values(
                |a: (Key, Seq<char>)| a.0,
            ).to_multiset(),
            match r.1 {
                Some(c) => self.click() == Some(c@),
                None => self.click() is None,
            },
    {
        let mut keys: Vec<Key> = Vec::new();
        let mut i: usize = 0;
        while i < self.actions.len()
            invariant
                0 <= i <= self.actions@.len(),
                keys@ == self.offered().take(i as int).map_values(|a: (Key, Seq<char>)| a.0),
            decreases self.actions@.len() - i,
        {
            keys.push(self.actions[i].0);
            i = i + 1;
            assert(keys@ =~= self.offered().take(i as int).map_values(|a: (Key, Seq<char>)| a.0));
        }
        assert(self.offered().take(i as int) == self.offered());
        let mut sorted = sort_keys(&keys);
        if self.info_panel_open {
            sorted = Vec::new();
            assert(keys_sorted(sorted@));
        }
        let click = match &self.click_action {
            Some(c) => Some(c.clone()),
            None => None,
        };
        (sorted, click)
    }
}

} // verus!
