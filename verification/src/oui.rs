//! The manufacturer of a card, from its hardware address.

use mac_oui::Oui;
use vstd::prelude::*;
use crate::text::opt_view;

verus! {

/// `mac_oui::Oui`: a database of vendor prefixes.
#[verifier::external_type_specification]
#[verifier::external_body]
pub struct ExOui(Oui);

/// The company that `db` finds for each hardware address, as text, that it
/// finds one for.
pub uninterp spec fn companies(db: Oui) -> Map<Seq<char>, Seq<char>>;

/// `Oui::default`: the database that is compiled into the crate. Its text never
/// changes, and it is documented to load. Which companies it lists is not stated.
#[verifier::external_body]
fn embedded() -> (r: Option<Oui>)
    ensures
        r is Some,
{
    Oui::default().ok()
}

/// `Oui::lookup_by_mac`: the company that the database finds for the address
/// `mac`; none where it finds none, and none where `mac` is no address.
#[verifier::external_body]
fn company(db: &Oui, mac: &str) -> (r: Option<String>)
    ensures
        match r {
            Some(s) => companies(*db).dom().contains(mac@) && s@ == companies(*db)[mac@],
            None => !companies(*db).dom().contains(mac@),
        },
{
    db.lookup_by_mac(mac).ok().flatten().map(|e| e.company_name.clone())
}

/// The manufacturers that can be looked up.
pub struct Vendors {
    db: Oui,
}

impl View for Vendors {
    type V = Map<Seq<char>, Seq<char>>;

    closed spec fn view(&self) -> Map<Seq<char>, Seq<char>> {
        companies(self.db)
    }
}

/// What `known` says of the address `mac`.
pub open spec fn vendor_of(known: Map<Seq<char>, Seq<char>>, mac: Seq<char>) -> Option<Seq<char>> {
    if known.dom().contains(mac) {
        Some(known[mac])
    } else {
        None
    }
}

/// What `known` says of the address `mac`, where anything is known at all.
pub open spec fn vendor_if_loaded(vendors: Option<Vendors>, mac: Seq<char>) -> Option<Seq<char>> {
    match vendors {
        Some(v) => vendor_of(v@, mac),
        None => None,
    }
}

impl Vendors {
    /// Load the database that comes with the program. It is always there; what it
    /// holds is not stated.
    pub fn load() -> (r: Option<Vendors>)
        ensures
            r is Some,
    {
        match embedded() {
            Some(db) => Some(Vendors { db }),
            None => None,
        }
    }

    /// The manufacturer of the card with the address `mac`, if it is known.
    pub fn lookup(&self, mac: &str) -> (r: Option<String>)
        ensures
            opt_view(r) == vendor_of(self@, mac@),
    {
        company(&self.db, mac)
    }
}

/// The manufacturer of the card with the address `mac`, if it is known.
pub fn lookup_if_loaded(vendors: &Option<Vendors>, mac: &str) -> (r: Option<String>)
    ensures
        opt_view(r) == vendor_if_loaded(*vendors, mac@),
{
    match vendors {
        Some(v) => v.lookup(mac),
        None => None,
    }
}

} // verus!
