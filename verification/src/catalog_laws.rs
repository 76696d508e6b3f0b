//! What holds of catalogs, prices and events as a whole.

use vstd::prelude::*;

use crate::catalog::change;
use crate::catalog::catalog_message;
use crate::catalog::catalog_refusal;
use crate::catalog::change_events;
use crate::catalog::entry_fault;
use crate::catalog::event_views;
use crate::catalog::first_entry_fault;
use crate::catalog::first_listing_fault;
use crate::catalog::free;
use crate::catalog::indexes;
use crate::catalog::listed_before;
use crate::catalog::listing_fault;
use crate::catalog::listing_refusal;
use crate::catalog::model_views;
use crate::catalog::price_is_zero;
use crate::catalog::price_text;
use crate::catalog::price_texts;
use crate::catalog::readable;
use crate::catalog::unidentified;
use crate::catalog::valid_catalog;
use crate::catalog::valid_listing;
use crate::catalog::CatalogError;
use crate::catalog::CatalogErrorView;
use crate::catalog::Event;
use crate::catalog::EventView;
use crate::catalog::Model;
use crate::catalog::ModelView;
use crate::catalog::RawPrice;
use crate::catalog::RawPriceView;
use crate::decimal_zero::decimal_zero;
use crate::decimal_zero::optional_exponent;
use crate::decimal_zero::optional_sign;
use crate::decimal_zero::zero_mantissa;
use crate::decimal_zero::zero_split;
use crate::ordered_map::has_key;
use crate::ordered_map::lemma_lookup_at;
use crate::ordered_map::lemma_lookup_determines;
use crate::ordered_map::lookup;
use crate::ordered_map::precedes;
use crate::ordered_map::sorted;
use crate::strings::debug_quoted;
use crate::strings::whitespace;

verus! {

/// Every event is the change of an entry of the current catalog, and the events stand in the
/// order of their entries.
proof fn lemma_event_sources(
    previous: Seq<(Seq<char>, ModelView)>,
    current: Seq<(Seq<char>, ModelView)>,
) -> (sources: Seq<int>)
    ensures
        sources.len() == change_events(previous, current).len(),
        forall|x: int|
            0 <= x < sources.len() ==> 0 <= #[trigger] sources[x] < current.len() && change(
                previous,
                current[sources[x]],
            ) == Some(change_events(previous, current)[x]),
        forall|x: int, y: int|
            0 <= x < y < sources.len() ==> #[trigger] sources[x] < #[trigger] sources[y],
        forall|i: int|
            0 <= i < current.len() && change(previous, #[trigger] current[i]) is Some
                ==> sources.contains(i),
    decreases current.len(),
{
    if current.len() == 0 {
        Seq::empty()
    } else {
        let shorter = current.drop_last();
        let earlier = lemma_event_sources(previous, shorter);
        let last = current.len() - 1;
        assert(forall|i: int| 0 <= i < last ==> #[trigger] shorter[i] == current[i]);
        let sources = if change(previous, current.last()) is Some {
            earlier.push(last)
        } else {
            earlier
        };
        assert forall|i: int|
            0 <= i < current.len() && change(
                previous,
                #[trigger] current[i],
            ) is Some implies sources.contains(i) by {
            if i < last {
                assert(shorter[i] == current[i]);
                assert(earlier.contains(i));
                let x = choose|x: int| 0 <= x < earlier.len() && earlier[x] == i;
                assert(sources[x] == i);
            } else {
                assert(sources[earlier.len() as int] == last);
            }
        }
        sources
    }
}

/// The events are exactly the changes of the current catalog's entries: nothing else is
/// reported, and models that have left the catalog are not.
pub proof fn events_are_the_changes(
    previous: Seq<(Seq<char>, ModelView)>,
    current: Seq<(Seq<char>, ModelView)>,
    event: EventView,
)
    ensures
        change_events(previous, current).contains(event) <==> exists|i: int|
            0 <= i < current.len() && change(previous, #[trigger] current[i]) == Some(event),
{
    let sources = lemma_event_sources(previous, current);
    let events = change_events(previous, current);
    if events.contains(event) {
        let x = choose|x: int| 0 <= x < events.len() && events[x] == event;
        assert(change(previous, current[sources[x]]) == Some(event));
    }
    if exists|i: int|
        0 <= i < current.len() && change(previous, #[trigger] current[i]) == Some(event) {
        let i = choose|i: int|
            0 <= i < current.len() && change(previous, #[trigger] current[i]) == Some(event);
        assert(sources.contains(i));
        let x = choose|x: int| 0 <= x < sources.len() && sources[x] == i;
        assert(events[x] == event);
    }
}

/// A valid catalog reports each model at most once, in the order of the ids.
pub proof fn events_come_in_id_order(
    previous: Seq<(Seq<char>, ModelView)>,
    current: Seq<(Seq<char>, ModelView)>,
    x: int,
    y: int,
)
    requires
        sorted(current),
        valid_catalog(current),
        0 <= x < y < change_events(previous, current).len(),
    ensures
        precedes(
            change_events(previous, current)[x].model.id,
            change_events(previous, current)[y].model.id,
        ),
{
    let sources = lemma_event_sources(previous, current);
    let i = sources[x];
    let j = sources[y];
    assert(sources[x] < sources[y]);
    assert(entry_fault(current[i]) is None);
    assert(entry_fault(current[j]) is None);
    assert(precedes(current[i].0, current[j].0));
}

/// A catalog that has not changed gives no event.
pub proof fn unchanged_catalog_has_no_events(catalog: Seq<(Seq<char>, ModelView)>)
    requires
        sorted(catalog),
    ensures
        change_events(catalog, catalog) == Seq::<EventView>::empty(),
{
    let sources = lemma_event_sources(catalog, catalog);
    if sources.len() > 0 {
        let i = sources[0];
        assert(change(catalog, catalog[i]) is Some);
        lemma_lookup_at(catalog, i);
    }
    assert(change_events(catalog, catalog) =~= Seq::<EventView>::empty());
}

/// Beside an empty catalog every model is new.
pub proof fn every_model_is_new_at_first(catalog: Seq<(Seq<char>, ModelView)>)
    ensures
        change_events(Seq::empty(), catalog) == Seq::new(
            catalog.len(),
            |i: int| EventView { model: catalog[i].1, kind: "new"@ },
        ),
    decreases catalog.len(),
{
    let nothing = Seq::<(Seq<char>, ModelView)>::empty();
    let all = Seq::new(
        catalog.len(),
        |i: int| EventView { model: catalog[i].1, kind: "new"@ },
    );
    if catalog.len() > 0 {
        every_model_is_new_at_first(catalog.drop_last());
        assert(lookup(nothing, catalog.last().0) is None);
        assert(change_events(nothing, catalog) =~= all);
    } else {
        assert(change_events(nothing, catalog) =~= all);
    }
}

/// A model that was free gives no event, whatever it costs now.
pub proof fn formerly_free_model_gives_no_event(
    previous: Seq<(Seq<char>, ModelView)>,
    entry: (Seq<char>, ModelView),
    earlier: ModelView,
)
    requires
        lookup(previous, entry.0) == Some(earlier),
        free(earlier),
    ensures
        change(previous, entry) is None,
{
}

/// Models that only the previous catalog has make no difference.
pub proof fn removed_models_make_no_difference(
    previous: Seq<(Seq<char>, ModelView)>,
    other: Seq<(Seq<char>, ModelView)>,
    current: Seq<(Seq<char>, ModelView)>,
)
    requires
        forall|i: int|
            0 <= i < current.len() ==> lookup(previous, (#[trigger] current[i]).0) == lookup(
                other,
                current[i].0,
            ),
    ensures
        change_events(previous, current) == change_events(other, current),
    decreases current.len(),
{
    if current.len() > 0 {
        let shorter = current.drop_last();
        assert(forall|i: int| 0 <= i < shorter.len() ==> #[trigger] shorter[i] == current[i]);
        assert(current.last() == current[current.len() - 1]);
        removed_models_make_no_difference(previous, other, shorter);
    }
}

/// The catalog of a response depends on which models it lists, and not on their order.
pub proof fn catalog_ignores_listing_order(
    a: Seq<(Seq<char>, ModelView)>,
    b: Seq<(Seq<char>, ModelView)>,
    first: Seq<ModelView>,
    second: Seq<ModelView>,
)
    requires
        indexes(a, first),
        indexes(b, second),
        forall|m: ModelView| first.contains(m) <==> second.contains(m),
    ensures
        a == b,
{
    assert forall|key: Seq<char>| #[trigger] lookup(a, key) == lookup(b, key) by {
        if has_key(a, key) {
            lemma_same_lookup(a, b, first, second, key);
        }
        if has_key(b, key) {
            lemma_same_lookup(b, a, second, first, key);
        }
    }
    lemma_lookup_determines(a, b);
}

proof fn lemma_same_lookup(
    a: Seq<(Seq<char>, ModelView)>,
    b: Seq<(Seq<char>, ModelView)>,
    first: Seq<ModelView>,
    second: Seq<ModelView>,
    key: Seq<char>,
)
    requires
        indexes(a, first),
        indexes(b, second),
        forall|m: ModelView| first.contains(m) <==> second.contains(m),
        has_key(a, key),
    ensures
        lookup(b, key) == lookup(a, key),
{
    let i = choose|i: int| 0 <= i < a.len() && #[trigger] a[i].0 == key;
    lemma_lookup_at(a, i);
    assert(first.contains(a[i].1));
    let j = choose|j: int| 0 <= j < second.len() && second[j] == a[i].1;
    assert(lookup(b, second[j].id) == Some(second[j]));
}

/// A model with tiered pricing is never taken for free.
pub proof fn tiered_pricing_is_not_free(
    raw: Seq<(Seq<char>, RawPriceView)>,
    model: ModelView,
    items: usize,
)
    requires
        readable(raw),
        model.pricing == price_texts(raw),
        lookup(raw, "overrides"@) == Some(RawPriceView::Array(items)),
        items > 0,
    ensures
        !free(model),
{
    let i = choose|i: int| 0 <= i < raw.len() && #[trigger] raw[i].0 == "overrides"@;
    assert(price_texts(raw)[i].1 == "tiered pricing"@);
    reveal_strlit("tiered pricing");
    let text = "tiered pricing"@;
    if decimal_zero(text) {
        let (s, e) = choose|s: int, e: int| #[trigger] zero_split(text, s, e);
        let m = text.subrange(s, e);
        assert(m.len() > 0);
        if s == 1 {
            assert(text.subrange(0, s)[0] == 't');
        } else {
            assert(m[0] == 't');
        }
        assert(false);
    }
    assert(!decimal_zero(model.pricing[i].1));
}

/// An empty array of overrides leaves it to the other prices whether a model is free.
pub proof fn empty_overrides_do_not_matter(
    raw: Seq<(Seq<char>, RawPriceView)>,
    i: int,
    model: ModelView,
    without: ModelView,
)
    requires
        sorted(raw),
        readable(raw),
        0 <= i < raw.len(),
        raw[i] == ("overrides"@, RawPriceView::Array(0)),
        model.pricing == price_texts(raw),
        without.pricing == price_texts(raw.remove(i)),
    ensures
        free(model) <==> free(without),
{
    reveal_strlit("overrides");
    reveal_strlit("prompt");
    reveal_strlit("completion");
    reveal_strlit("0");
    assert("overrides"@.len() == 9 && "prompt"@.len() == 6 && "completion"@.len() == 10);
    let p = model.pricing;
    let q = without.pricing;
    assert(q =~= p.remove(i));
    assert(sorted(p)) by {
        assert forall|x: int, y: int| 0 <= x < y < p.len() implies precedes(
            #[trigger] p[x].0,
            #[trigger] p[y].0,
        ) by {
            assert(precedes(raw[x].0, raw[y].0));
        }
    }
    lemma_lookup_without(p, i, "prompt"@);
    lemma_lookup_without(p, i, "completion"@);
    assert(price_is_zero(p, "prompt"@) == price_is_zero(q, "prompt"@));
    assert(price_is_zero(p, "completion"@) == price_is_zero(q, "completion"@));
    assert(decimal_zero("0"@)) by {
        let z = "0"@;
        assert(optional_sign(z.subrange(0, 0)));
        assert(z.subrange(0, 1)[0] == '0');
        assert(zero_mantissa(z.subrange(0, 1)));
        assert(optional_exponent(z.subrange(1, 1)));
        assert(zero_split(z, 0, 1));
    }
    assert(decimal_zero(p[i].1));
    if free(model) {
        assert forall|x: int| 0 <= x < q.len() implies decimal_zero((#[trigger] q[x]).1) by {
            if x < i {
                assert(q[x] == p[x]);
            } else {
                assert(q[x] == p[x + 1]);
            }
        }
    }
    if free(without) {
        assert forall|x: int| 0 <= x < p.len() implies decimal_zero((#[trigger] p[x]).1) by {
            if x < i {
                assert(q[x] == p[x]);
            } else if x > i {
                assert(q[x - 1] == p[x]);
            }
        }
    }
}

proof fn lemma_lookup_without<T>(a: Seq<(Seq<char>, T)>, i: int, key: Seq<char>)
    requires
        sorted(a),
        0 <= i < a.len(),
        a[i].0 != key,
    ensures
        lookup(a.remove(i), key) == lookup(a, key),
{
    let b = a.remove(i);
    assert(sorted(b)) by {
        assert forall|x: int, y: int| 0 <= x < y < b.len() implies precedes(
            #[trigger] b[x].0,
            #[trigger] b[y].0,
        ) by {
            let ax = if x < i {
                x
            } else {
                x + 1
            };
            let ay = if y < i {
                y
            } else {
                y + 1
            };
            assert(precedes(a[ax].0, a[ay].0));
        }
    }
    if has_key(a, key) {
        let x = choose|x: int| 0 <= x < a.len() && #[trigger] a[x].0 == key;
        lemma_lookup_at(a, x);
        let y = if x < i {
            x
        } else {
            x - 1
        };
        assert(b[y] == a[x]);
        lemma_lookup_at(b, y);
    } else if has_key(b, key) {
        let y = choose|y: int| 0 <= y < b.len() && #[trigger] b[y].0 == key;
        if y < i {
            assert(a[y] == b[y]);
        } else {
            assert(a[y + 1] == b[y]);
        }
    }
}

/// Prices that were written as strings are read back as they were.
pub proof fn written_prices_read_back(pricing: Seq<(Seq<char>, Seq<char>)>)
    ensures
        readable(
            Seq::new(pricing.len(), |i: int| (pricing[i].0, RawPriceView::Text(pricing[i].1))),
        ),
        price_texts(
            Seq::new(pricing.len(), |i: int| (pricing[i].0, RawPriceView::Text(pricing[i].1))),
        ) == pricing,
{
    let raw = Seq::new(
        pricing.len(),
        |i: int| (pricing[i].0, RawPriceView::Text(pricing[i].1)),
    );
    assert(price_texts(raw) =~= pricing);
}

/// A model is free exactly if it has a prompt price and a completion price, and none of its
/// prices is other than zero.
pub proof fn free_models_cost_nothing(model: ModelView)
    requires
        sorted(model.pricing),
    ensures
        free(model) <==> {
            &&& exists|i: int|
                0 <= i < model.pricing.len() && (#[trigger] model.pricing[i]).0 == "prompt"@
            &&& exists|i: int|
                0 <= i < model.pricing.len() && (#[trigger] model.pricing[i]).0 == "completion"@
            &&& forall|i: int|
                0 <= i < model.pricing.len() ==> decimal_zero((#[trigger] model.pricing[i]).1)
        },
{
    lemma_price_there(model.pricing, "prompt"@);
    lemma_price_there(model.pricing, "completion"@);
}

proof fn lemma_price_there(pricing: Seq<(Seq<char>, Seq<char>)>, name: Seq<char>)
    requires
        sorted(pricing),
    ensures
        price_is_zero(pricing, name) ==> exists|i: int|
            0 <= i < pricing.len() && (#[trigger] pricing[i]).0 == name,
        (exists|i: int| 0 <= i < pricing.len() && (#[trigger] pricing[i]).0 == name) && (forall|
            i: int,
        |
            0 <= i < pricing.len() ==> decimal_zero((#[trigger] pricing[i]).1)) ==> price_is_zero(
            pricing,
            name,
        ),
{
    if has_key(pricing, name) {
        let i = choose|i: int| 0 <= i < pricing.len() && #[trigger] pricing[i].0 == name;
        let price = pricing[i];
        assert(price.0 == name);
        lemma_lookup_at(pricing, i);
    }
    if exists|i: int| 0 <= i < pricing.len() && (#[trigger] pricing[i]).0 == name {
        let i = choose|i: int| 0 <= i < pricing.len() && (#[trigger] pricing[i]).0 == name;
        assert(pricing[i].0 == name);
        assert(has_key(pricing, name));
    }
}

/// Each entry of the current catalog is reported at most once, in its order: exactly if the
/// previous catalog has nothing under its key, or has a model there that is not free while the
/// present one is. The first kind of event is `new`, the second `paid_to_free`.
pub proof fn events_tell_what_is_new_and_what_became_free(
    previous: Seq<(Seq<char>, ModelView)>,
    current: Seq<(Seq<char>, ModelView)>,
) -> (sources: Seq<int>)
    requires
        sorted(previous),
    ensures
        sources.len() == change_events(previous, current).len(),
        forall|x: int, y: int|
            0 <= x < y < sources.len() ==> #[trigger] sources[x] < #[trigger] sources[y],
        forall|x: int|
            0 <= x < sources.len() ==> 0 <= #[trigger] sources[x] < current.len()
                && change_events(previous, current)[x].model == current[sources[x]].1,
        forall|x: int|
            #![trigger sources[x]]
            #![trigger change_events(previous, current)[x]]
            0 <= x < sources.len() ==> {
                ||| change_events(previous, current)[x].kind == "new"@ && forall|j: int|
                    0 <= j < previous.len() ==> (#[trigger] previous[j]).0
                        != current[sources[x]].0
                ||| change_events(previous, current)[x].kind == "paid_to_free"@ && free(
                    current[sources[x]].1,
                ) && exists|j: int|
                    0 <= j < previous.len() && (#[trigger] previous[j]).0
                        == current[sources[x]].0 && !free(previous[j].1)
            },
        forall|i: int|
            0 <= i < current.len() && (forall|j: int|
                0 <= j < previous.len() ==> (#[trigger] previous[j]).0 != current[i].0)
                ==> #[trigger] sources.contains(i),
        forall|i: int, j: int|
            0 <= i < current.len() && 0 <= j < previous.len() && (#[trigger] previous[j]).0
                == current[i].0 && !free(previous[j].1) && free((#[trigger] current[i]).1)
                ==> sources.contains(i),
{
    let sources = lemma_event_sources(previous, current);
    let events = change_events(previous, current);
    assert forall|x: int| 0 <= x < sources.len() implies 0 <= #[trigger] sources[x]
        < current.len() && events[x].model == current[sources[x]].1 by {
        assert(change(previous, current[sources[x]]) == Some(events[x]));
    }
    assert forall|x: int|
        #![trigger sources[x]]
        #![trigger change_events(previous, current)[x]]
        0 <= x < sources.len() implies {
        ||| events[x].kind == "new"@ && forall|j: int|
            0 <= j < previous.len() ==> (#[trigger] previous[j]).0 != current[sources[x]].0
        ||| events[x].kind == "paid_to_free"@ && free(current[sources[x]].1) && exists|j: int|
            0 <= j < previous.len() && (#[trigger] previous[j]).0 == current[sources[x]].0
                && !free(previous[j].1)
    } by {
        let key = current[sources[x]].0;
        assert(change(previous, current[sources[x]]) == Some(events[x]));
        if has_key(previous, key) {
            let j = choose|j: int| 0 <= j < previous.len() && #[trigger] previous[j].0 == key;
            lemma_lookup_at(previous, j);
            let earlier = previous[j];
            assert(earlier.0 == key && !free(earlier.1));
        } else {
            assert forall|j: int| 0 <= j < previous.len() implies (#[trigger] previous[j]).0
                != key by {
                assert(previous[j].0 == previous[j].0);
            }
        }
    }
    assert forall|i: int|
        0 <= i < current.len() && (forall|j: int|
            0 <= j < previous.len() ==> (#[trigger] previous[j]).0
                != current[i].0) implies #[trigger] sources.contains(i) by {
        let entry = current[i];
        assert(!has_key(previous, entry.0));
        assert(change(previous, current[i]) is Some);
    }
    assert forall|i: int, j: int|
        0 <= i < current.len() && 0 <= j < previous.len() && (#[trigger] previous[j]).0
            == current[i].0 && !free(previous[j].1) && free(
            (#[trigger] current[i]).1,
        ) implies sources.contains(i) by {
        lemma_lookup_at(previous, j);
        assert(change(previous, current[i]) is Some);
    }
    sources
}

/// An event from paid to free tells of a model that is free now, and was listed and not free
/// before.
pub proof fn freed_models_were_paid_and_are_free(
    previous: Seq<(Seq<char>, ModelView)>,
    current: Seq<(Seq<char>, ModelView)>,
    event: EventView,
) -> (places: (int, int))
    requires
        sorted(previous),
        change_events(previous, current).contains(event),
        event.kind == "paid_to_free"@,
    ensures
        free(event.model),
        0 <= places.0 < current.len(),
        current[places.0].1 == event.model,
        0 <= places.1 < previous.len(),
        previous[places.1].0 == current[places.0].0,
        !free(previous[places.1].1),
{
    reveal_strlit("new");
    reveal_strlit("paid_to_free");
    assert("new"@.len() == 3 && "paid_to_free"@.len() == 12);
    let events = change_events(previous, current);
    let sources = events_tell_what_is_new_and_what_became_free(previous, current);
    let x = choose|x: int| 0 <= x < events.len() && events[x] == event;
    let i = sources[x];
    let j = choose|j: int|
        0 <= j < previous.len() && (#[trigger] previous[j]).0 == current[i].0 && !free(
            previous[j].1,
        );
    (i, j)
}

/// A model that was listed before and is not free now gives no event.
pub proof fn models_that_still_cost_give_no_event(
    previous: Seq<(Seq<char>, ModelView)>,
    current: Seq<(Seq<char>, ModelView)>,
    event: EventView,
    j: int,
)
    requires
        sorted(previous),
        valid_catalog(current),
        change_events(previous, current).contains(event),
        0 <= j < previous.len(),
        previous[j].0 == event.model.id,
    ensures
        free(event.model),
        event.kind == "paid_to_free"@,
{
    let events = change_events(previous, current);
    let sources = events_tell_what_is_new_and_what_became_free(previous, current);
    let x = choose|x: int| 0 <= x < events.len() && events[x] == event;
    let i = sources[x];
    assert(entry_fault(current[i]) is None);
    let earlier = previous[j];
    assert(earlier.0 == current[i].0);
}

/// A catalog is valid exactly if it lists something, every id and every name holds a character
/// that is not whitespace, and each model stands under its id.
pub proof fn valid_catalogs_name_their_models(entries: Seq<(Seq<char>, ModelView)>)
    ensures
        valid_catalog(entries) <==> entries.len() > 0 && forall|i: int|
            0 <= i < entries.len() ==> {
                let entry = #[trigger] entries[i];
                &&& entry.0 == entry.1.id
                &&& exists|k: int| 0 <= k < entry.1.id.len() && !whitespace(#[trigger] entry.1.id[k])
                &&& exists|k: int|
                    0 <= k < entry.1.name.len() && !whitespace(#[trigger] entry.1.name[k])
            },
{
    assert forall|i: int| 0 <= i < entries.len() implies (entry_fault(#[trigger] entries[i]) is None
        <==> {
        let entry = entries[i];
        &&& entry.0 == entry.1.id
        &&& exists|k: int| 0 <= k < entry.1.id.len() && !whitespace(#[trigger] entry.1.id[k])
        &&& exists|k: int| 0 <= k < entry.1.name.len() && !whitespace(#[trigger] entry.1.name[k])
    }) by {}
}

/// A catalog is refused as empty exactly if it is; else for its first entry that is not in
/// order: that its id or its name is whitespace alone, or that it stands under another key,
/// which is told with the id.
pub proof fn catalogs_are_refused_for_their_first_fault(
    entries: Seq<(Seq<char>, ModelView)>,
    error: CatalogErrorView,
) -> (at: int)
    requires
        catalog_refusal(entries, error),
    ensures
        error is Empty <==> entries.len() == 0,
        entries.len() > 0 ==> 0 <= at < entries.len(),
        entries.len() > 0 ==> forall|j: int|
            0 <= j < at ==> {
                let entry = #[trigger] entries[j];
                &&& entry.0 == entry.1.id
                &&& exists|k: int| 0 <= k < entry.1.id.len() && !whitespace(#[trigger] entry.1.id[k])
                &&& exists|k: int|
                    0 <= k < entry.1.name.len() && !whitespace(#[trigger] entry.1.name[k])
            },
        match error {
            CatalogErrorView::Empty => true,
            CatalogErrorView::EmptyIdentity => {
                ||| forall|k: int|
                    0 <= k < entries[at].1.id.len() ==> whitespace(#[trigger] entries[at].1.id[k])
                ||| forall|k: int|
                    0 <= k < entries[at].1.name.len() ==> whitespace(
                        #[trigger] entries[at].1.name[k],
                    )
            },
            CatalogErrorView::KeyMismatch { key, id } => {
                &&& key != id
                &&& key == entries[at].0
                &&& id == entries[at].1.id
                &&& exists|k: int|
                    0 <= k < entries[at].1.id.len() && !whitespace(#[trigger] entries[at].1.id[k])
                &&& exists|k: int|
                    0 <= k < entries[at].1.name.len() && !whitespace(
                        #[trigger] entries[at].1.name[k],
                    )
            },
            CatalogErrorView::DuplicateId => false,
            CatalogErrorView::ResponseTooLarge => false,
        },
{
    if entries.len() == 0 {
        0
    } else {
        let at = choose|i: int| #[trigger]
            first_entry_fault(entries, i) && entry_fault(entries[i]) == Some(error);
        assert forall|j: int| 0 <= j < at implies {
            let entry = #[trigger] entries[j];
            &&& entry.0 == entry.1.id
            &&& exists|k: int| 0 <= k < entry.1.id.len() && !whitespace(#[trigger] entry.1.id[k])
            &&& exists|k: int|
                0 <= k < entry.1.name.len() && !whitespace(#[trigger] entry.1.name[k])
        } by {
            assert(entry_fault(entries[j]) is None);
        }
        at
    }
}

/// A response is accepted exactly if it lists something, every id and every name holds a
/// character that is not whitespace, and no two models have one id.
pub proof fn named_and_distinct_models_are_accepted(models: Seq<ModelView>)
    ensures
        valid_listing(models) <==> {
            &&& models.len() > 0
            &&& forall|i: int|
                #![trigger models[i]]
                0 <= i < models.len() ==> {
                    &&& models[i].id.len() > 0
                    &&& exists|k: int|
                        0 <= k < models[i].id.len() && !whitespace(#[trigger] models[i].id[k])
                    &&& exists|k: int|
                        0 <= k < models[i].name.len() && !whitespace(#[trigger] models[i].name[k])
                }
            &&& forall|i: int, j: int|
                0 <= i < j < models.len() ==> (#[trigger] models[i]).id != (
                #[trigger] models[j]).id
        },
{
    let named = models.len() > 0 && forall|i: int|
        #![trigger models[i]]
        0 <= i < models.len() ==> {
            &&& models[i].id.len() > 0
            &&& exists|k: int|
                0 <= k < models[i].id.len() && !whitespace(#[trigger] models[i].id[k])
            &&& exists|k: int|
                0 <= k < models[i].name.len() && !whitespace(#[trigger] models[i].name[k])
        };
    let distinct = forall|i: int, j: int|
        0 <= i < j < models.len() ==> (#[trigger] models[i]).id != (#[trigger] models[j]).id;
    if named && distinct {
        assert forall|i: int| 0 <= i < models.len() implies #[trigger] listing_fault(
            models,
            i,
        ) is None by {
            assert(!unidentified(models[i]));
        }
    }
    if valid_listing(models) {
        assert forall|i: int| 0 <= i < models.len() implies !unidentified(#[trigger] models[i]) by {
            assert(listing_fault(models, i) is None);
        }
        assert forall|i: int, j: int| 0 <= i < j < models.len() implies (#[trigger] models[i]).id
            != (#[trigger] models[j]).id by {
            assert(listing_fault(models, j) is None);
            assert(!listed_before(models, j));
        }
    }
}

/// A response is refused as empty exactly if it lists nothing; else for its first model that
/// is not in order: that its id or its name is whitespace alone, or that an earlier one has
/// its id.
pub proof fn listings_are_refused_for_their_first_fault(
    models: Seq<ModelView>,
    error: CatalogErrorView,
) -> (at: int)
    requires
        listing_refusal(models, error),
    ensures
        error is Empty <==> models.len() == 0,
        models.len() > 0 ==> 0 <= at < models.len(),
        models.len() > 0 ==> forall|j: int|
            #![trigger models[j]]
            0 <= j < at ==> {
                &&& models[j].id.len() > 0
                &&& exists|k: int|
                    0 <= k < models[j].id.len() && !whitespace(#[trigger] models[j].id[k])
                &&& exists|k: int|
                    0 <= k < models[j].name.len() && !whitespace(#[trigger] models[j].name[k])
            },
        models.len() > 0 ==> forall|i: int, j: int|
            0 <= i < j < at ==> (#[trigger] models[i]).id != (#[trigger] models[j]).id,
        match error {
            CatalogErrorView::Empty => true,
            CatalogErrorView::EmptyIdentity => {
                ||| forall|k: int|
                    0 <= k < models[at].id.len() ==> whitespace(#[trigger] models[at].id[k])
                ||| forall|k: int|
                    0 <= k < models[at].name.len() ==> whitespace(#[trigger] models[at].name[k])
            },
            CatalogErrorView::DuplicateId => {
                &&& exists|k: int|
                    0 <= k < models[at].id.len() && !whitespace(#[trigger] models[at].id[k])
                &&& exists|k: int|
                    0 <= k < models[at].name.len() && !whitespace(#[trigger] models[at].name[k])
                &&& exists|j: int| 0 <= j < at && (#[trigger] models[j]).id == models[at].id
            },
            CatalogErrorView::KeyMismatch { key, id } => false,
            CatalogErrorView::ResponseTooLarge => false,
        },
{
    if models.len() == 0 {
        0
    } else {
        let at = choose|i: int| #[trigger]
            first_listing_fault(models, i) && listing_fault(models, i) == Some(error);
        assert forall|j: int|
            #![trigger models[j]]
            0 <= j < at implies {
            &&& models[j].id.len() > 0
            &&& exists|k: int|
                0 <= k < models[j].id.len() && !whitespace(#[trigger] models[j].id[k])
            &&& exists|k: int|
                0 <= k < models[j].name.len() && !whitespace(#[trigger] models[j].name[k])
        } by {
            assert(listing_fault(models, j) is None);
        }
        assert forall|i: int, j: int| 0 <= i < j < at implies (#[trigger] models[i]).id != (
        #[trigger] models[j]).id by {
            assert(listing_fault(models, j) is None);
            assert(!listed_before(models, j));
        }
        at
    }
}

/// The catalog of a response holds the models that it lists, each under its id, in the order
/// of the ids, and nothing else.
pub proof fn catalogs_hold_the_listed_models(
    entries: Seq<(Seq<char>, ModelView)>,
    models: Seq<ModelView>,
    model: ModelView,
)
    requires
        indexes(entries, models),
    ensures
        entries.len() == models.len(),
        models.contains(model) <==> exists|i: int|
            0 <= i < entries.len() && #[trigger] entries[i] == (model.id, model),
        forall|i: int| 0 <= i < entries.len() ==> (#[trigger] entries[i]).0 == entries[i].1.id,
        forall|i: int, j: int|
            0 <= i < j < entries.len() ==> precedes(
                (#[trigger] entries[i]).0,
                (#[trigger] entries[j]).0,
            ),
{
    if models.contains(model) {
        let m = choose|m: int| 0 <= m < models.len() && models[m] == model;
        assert(lookup(entries, models[m].id) == Some(models[m]));
        let i = choose|i: int| 0 <= i < entries.len() && #[trigger] entries[i].0 == model.id;
        lemma_lookup_at(entries, i);
        assert(entries[i] == (model.id, model));
    }
    if exists|i: int| 0 <= i < entries.len() && #[trigger] entries[i] == (model.id, model) {
        let i = choose|i: int|
            0 <= i < entries.len() && #[trigger] entries[i] == (model.id, model);
        assert(models.contains(entries[i].1));
    }
    assert forall|i: int, j: int| 0 <= i < j < entries.len() implies precedes(
        (#[trigger] entries[i]).0,
        (#[trigger] entries[j]).0,
    ) by {
        assert(precedes(entries[i].0, entries[j].0));
    }
}

/// Prices can be read unless one is neither a string nor an array of overrides. Each keeps its
/// name; a string keeps its text; overrides read as zero if there are none, and as tiered
/// pricing if there are some.
pub proof fn prices_keep_names_and_texts(raw: Seq<(Seq<char>, RawPriceView)>)
    ensures
        readable(raw) <==> forall|i: int|
            0 <= i < raw.len() ==> {
                ||| (#[trigger] raw[i]).1 is Text
                ||| raw[i].1 is Array && raw[i].0 == "overrides"@
            },
        price_texts(raw).len() == raw.len(),
        forall|i: int|
            0 <= i < raw.len() ==> (#[trigger] price_texts(raw)[i]).0 == raw[i].0 && match raw[i].1 {
                RawPriceView::Text(text) => price_texts(raw)[i].1 == text,
                RawPriceView::Array(items) => raw[i].0 == "overrides"@ ==> price_texts(raw)[i].1
                    == if items == 0 {
                    "0"@
                } else {
                    "tiered pricing"@
                },
                RawPriceView::Other => true,
            },
{
    assert forall|i: int| 0 <= i < raw.len() implies (price_text(#[trigger] raw[i]) is Some <==> (
    raw[i].1 is Text || raw[i].1 is Array && raw[i].0 == "overrides"@)) by {}
}

/// The report of a model under a wrong key quotes the key and then the model's id.
pub proof fn key_mismatches_quote_key_and_id(key: Seq<char>, id: Seq<char>)
    ensures
        catalog_message(CatalogErrorView::KeyMismatch { key, id }) == "catalog key "@
            + debug_quoted(key) + " does not match model id "@ + debug_quoted(id),
{
}

/// Models, events, prices and errors are seen with all that they hold, and lists of them item
/// by item.
pub proof fn records_are_seen_whole(
    model: Model,
    event: Event,
    error: CatalogError,
    price: RawPrice,
    models: Seq<Model>,
    events: Seq<Event>,
)
    ensures
        model@.id == model.id@,
        model@.name == model.name@,
        model@.description == model.description@,
        model@.context_length == model.context_length,
        model@.pricing == model.pricing@,
        event@.model == event.model@,
        event@.kind == event.kind@,
        error is Empty <==> error@ is Empty,
        error is EmptyIdentity <==> error@ is EmptyIdentity,
        error is DuplicateId <==> error@ is DuplicateId,
        error is ResponseTooLarge <==> error@ is ResponseTooLarge,
        error matches CatalogError::KeyMismatch { key, id } ==> error@
            == (CatalogErrorView::KeyMismatch { key: key@, id: id@ }),
        price matches RawPrice::Text(text) ==> price@ == RawPriceView::Text(text@),
        price matches RawPrice::Array(items) ==> price@ == RawPriceView::Array(items),
        price is Other <==> price@ is Other,
        model_views(models).len() == models.len(),
        forall|i: int| 0 <= i < models.len() ==> #[trigger] model_views(models)[i] == models[i]@,
        event_views(events).len() == events.len(),
        forall|i: int| 0 <= i < events.len() ==> #[trigger] event_views(events)[i] == events[i]@,
{
}

} // verus!
