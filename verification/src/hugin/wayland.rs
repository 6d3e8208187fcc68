//! The offers of the compositor: which forms each has, and what becomes of it
//! when a selection changes.

use std::collections::HashMap;
use vstd::prelude::*;
use crate::hugin::capture::Selection;
use crate::text::{copy_strings, views};

verus! {

/// The offers that have been announced, by the number of their object, with the
/// forms announced so far.
pub struct Offers {
    pub forms: HashMap<u32, Vec<String>>,
}

/// What becomes of a change of a selection.
pub enum Change {
    /// The selection is empty now.
    Cleared,
    /// The offer has no forms: it is let go.
    Empty,
    /// The offer is read in each of these forms, and then let go.
    Read(Vec<String>),
}

/// The forms of the offers.
pub open spec fn forms_of(m: Map<u32, Vec<String>>) -> Map<u32, Seq<Seq<char>>> {
    Map::new(|id: u32| m.dom().contains(id), |id: u32| views(m[id]@))
}

/// The forms of the offer `id`: none where it was not announced.
pub open spec fn announced(m: Map<u32, Seq<Seq<char>>>, id: u32) -> Seq<Seq<char>> {
    if m.dom().contains(id) {
        m[id]
    } else {
        seq![]
    }
}

impl View for Offers {
    type V = Map<u32, Seq<Seq<char>>>;

    open spec fn view(&self) -> Map<u32, Seq<Seq<char>>> {
        forms_of(self.forms@)
    }
}

impl Offers {
    /// No offers.
    pub fn new() -> (o: Offers)
        ensures
            o@ == Map::<u32, Seq<Seq<char>>>::empty(),
    {
        let o = Offers { forms: HashMap::new() };
        assert(o@ =~= Map::<u32, Seq<Seq<char>>>::empty());
        o
    }

    /// A new offer, without forms so far.
    pub fn data_offer(&mut self, id: u32)
        ensures
            final(self)@ == old(self)@.insert(id, seq![]),
    {
        let none: Vec<String> = Vec::new();
        assert(views(none@) =~= Seq::<Seq<char>>::empty());
        let ghost before = self@;
        self.forms.insert(id, none);
        assert(self@ =~= before.insert(id, seq![]));
    }

    /// The offer `id` has the form `mime` too.
    pub fn offer(&mut self, id: u32, mime: String)
        ensures
            final(self)@ == old(self)@.insert(id, announced(old(self)@, id).push(mime@)),
    {
        let ghost before = self@;
        let mut forms = match self.forms.get(&id) {
            Some(f) => copy_strings(f),
            None => Vec::new(),
        };
        assert(views(forms@) =~= announced(before, id));
        let ghost mv = mime@;
        let ghost fv = forms@;
        forms.push(mime);
        assert(views(forms@) =~= views(fv).push(mv));
        self.forms.insert(id, forms);
        assert(self@ =~= before.insert(id, announced(before, id).push(mv)));
    }

    /// A selection changed to the offer `id`, or to nothing. An offer is read once.
    pub fn handle_selection(&mut self, id: Option<u32>) -> (c: Change)
        ensures
            match id {
                Some(id) => {
                    let forms = announced(old(self)@, id);
                    &&& final(self)@ == old(self)@.remove(id)
                    &&& if forms.len() == 0 {
                        c is Empty
                    } else {
                        c matches Change::Read(v) && views(v@) == forms
                    }
                },
                None => final(self)@ == old(self)@ && c is Cleared,
            },
    {
        match id {
            Some(id) => {
                let ghost before = self@;
                let forms = match self.forms.remove(&id) {
                    Some(f) => f,
                    None => Vec::new(),
                };
                assert(views(forms@) =~= announced(before, id));
                assert(self@ =~= before.remove(id));
                assert(views(forms@).len() == forms@.len());
                if forms.len() == 0 {
                    Change::Empty
                } else {
                    Change::Read(forms)
                }
            },
            None => Change::Cleared,
        }
    }
}

/// Whether a change of the selection `sel` is followed: the primary one only where
/// it is watched.
pub fn is_watched(sel: Selection, primary: bool) -> (r: bool)
    ensures
        r == (sel == Selection::Regular || primary),
{
    match sel {
        Selection::Regular => true,
        Selection::Primary => primary,
    }
}

/// What was announced of an offer is what is read of it when a selection changes
/// to it, in the order of the announcements, whatever happens to other offers in
/// between.
pub proof fn offers_are_read_as_announced(
    m: Map<u32, Seq<Seq<char>>>,
    id: u32,
    mime: Seq<char>,
    other: u32,
    forms: Seq<Seq<char>>,
)
    requires
        other != id,
    ensures
        announced(m.insert(id, announced(m, id).push(mime)), id) == announced(m, id).push(mime),
        announced(m.insert(other, forms), id) == announced(m, id),
        announced(m.remove(other), id) == announced(m, id),
        announced(m.remove(id), id) == Seq::<Seq<char>>::empty(),
{
}

} // verus!
