//! The event catalog: a read-only table supplying the name and the
//! price that registration charges. Unknown events fall back to a
//! fixed name and price.

use vstd::prelude::*;
use vstd::string::StringExecFns;

verus! {

/// The price charged for an event the catalog does not list.
pub const DEFAULT_PRICE: u64 = 150;

/// One catalog row. The price is in whole currency units.
#[derive(Debug)]
pub struct CatalogEntry {
    pub id: String,
    pub name: String,
    pub price: u64,
}

/// The mathematical image of a `CatalogEntry`.
#[verifier::ext_equal]
pub struct CatalogEntryView {
    pub id: Seq<char>,
    pub name: Seq<char>,
    pub price: u64,
}

impl View for CatalogEntry {
    type V = CatalogEntryView;

    open spec fn view(&self) -> CatalogEntryView {
        CatalogEntryView { id: self.id@, name: self.name@, price: self.price }
    }
}

impl DeepView for CatalogEntry {
    type V = CatalogEntryView;

    open spec fn deep_view(&self) -> CatalogEntryView {
        self.view()
    }
}

/// The first catalog row carrying the given event identifier.
pub open spec fn spec_find(cat: Seq<CatalogEntryView>, event: Seq<char>) -> Option<CatalogEntryView>
    decreases cat.len(),
{
    if cat.len() == 0 {
        None
    } else if cat.first().id == event {
        Some(cat.first())
    } else {
        spec_find(cat.drop_first(), event)
    }
}

/// The price registration charges for the event: the listed price, or
/// the fixed fallback for an unlisted event.
pub open spec fn spec_price(cat: Seq<CatalogEntryView>, event: Seq<char>) -> u64 {
    match spec_find(cat, event) {
        Some(e) => e.price,
        None => DEFAULT_PRICE,
    }
}

/// The display name of the event: the listed name, or the fixed
/// fallback for an unlisted event.
pub open spec fn spec_event_name(cat: Seq<CatalogEntryView>, event: Seq<char>) -> Seq<char> {
    match spec_find(cat, event) {
        Some(e) => e.name,
        None => "Unknown Event"@,
    }
}

/// Whether every listed price is positive, as the data model asks of
/// all monetary amounts.
pub open spec fn positive_prices(cat: Seq<CatalogEntryView>) -> bool {
    forall|i: int| 0 <= i < cat.len() ==> (#[trigger] cat[i]).price > 0
}

/// In a catalog of positive prices every looked-up price is positive:
/// listed prices by assumption, the fallback by its value.
pub proof fn lemma_spec_price_positive(cat: Seq<CatalogEntryView>, event: Seq<char>)
    requires
        positive_prices(cat),
    ensures
        spec_price(cat, event) > 0,
    decreases cat.len(),
{
    if cat.len() > 0 && cat.first().id != event {
        let rest = cat.drop_first();
        assert forall|i: int| 0 <= i < rest.len() implies (#[trigger] rest[i]).price > 0 by {
            assert(rest[i] == cat[i + 1]);
        }
        lemma_spec_price_positive(rest, event);
    } else if cat.len() > 0 {
        assert(cat.first() == cat[0]);
    }
}

/// Looks an event up and returns its display name and price, falling
/// back to the fixed name and price for an unlisted event.
pub fn lookup(catalog: &Vec<CatalogEntry>, event_id: &String) -> (r: (String, u64))
    ensures
        r.0@ == spec_event_name(catalog.deep_view(), event_id@),
        r.1 == spec_price(catalog.deep_view(), event_id@),
{
    let ghost cat = catalog.deep_view();
    proof {
        assert(cat.skip(0) =~= cat);
    }
    let n = catalog.len();
    let mut k: usize = 0;
    while k < n
        invariant
            n == catalog@.len(),
            cat == catalog.deep_view(),
            k <= n,
            spec_find(cat, event_id@) == spec_find(cat.skip(k as int), event_id@),
        decreases n - k,
    {
        proof {
            assert(cat.skip(k as int).first() == cat[k as int]);
        }
        if catalog[k].id == *event_id {
            proof {
                assert(spec_find(cat.skip(k as int), event_id@) == Some(cat[k as int]));
            }
            return (catalog[k].name.clone(), catalog[k].price);
        }
        proof {
            assert(cat.skip(k as int).drop_first() =~= cat.skip(k as int + 1));
        }
        k += 1;
    }
    proof {
        assert(cat.skip(n as int) =~= Seq::<CatalogEntryView>::empty());
        assert(spec_find(cat, event_id@) is None);
    }
    (String::from_str("Unknown Event"), DEFAULT_PRICE)
}

/// The five events the service offers, with the prices registration
/// charges.
pub fn default_catalog() -> (r: Vec<CatalogEntry>)
    ensures
        r.deep_view().len() == 5,
        r.deep_view()[0] == (CatalogEntryView {
            id: "beat-the-market"@,
            name: "Beat the Market"@,
            price: 150,
        }),
        r.deep_view()[1] == (CatalogEntryView {
            id: "trade-quest"@,
            name: "Trade Quest"@,
            price: 150,
        }),
        r.deep_view()[2] == (CatalogEntryView {
            id: "3"@,
            name: "Innovate & Create Tech Summit"@,
            price: 200,
        }),
        r.deep_view()[3] == (CatalogEntryView {
            id: "4"@,
            name: "Gourmet Bites Food & Wine Festival"@,
            price: 100,
        }),
        r.deep_view()[4] == (CatalogEntryView {
            id: "5"@,
            name: "Synthwave Summer Fest"@,
            price: 250,
        }),
{
    let mut r: Vec<CatalogEntry> = Vec::new();
    r.push(CatalogEntry {
        id: String::from_str("beat-the-market"),
        name: String::from_str("Beat the Market"),
        price: 150,
    });
    r.push(CatalogEntry {
        id: String::from_str("trade-quest"),
        name: String::from_str("Trade Quest"),
        price: 150,
    });
    r.push(CatalogEntry {
        id: String::from_str("3"),
        name: String::from_str("Innovate & Create Tech Summit"),
        price: 200,
    });
    r.push(CatalogEntry {
        id: String::from_str("4"),
        name: String::from_str("Gourmet Bites Food & Wine Festival"),
        price: 100,
    });
    r.push(CatalogEntry {
        id: String::from_str("5"),
        name: String::from_str("Synthwave Summer Fest"),
        price: 250,
    });
    r
}

} // verus!
