//! The model catalog: its records, how it is validated, and how two catalogs differ.

use vstd::prelude::*;

use crate::decimal_zero::decimal_zero;
use crate::decimal_zero::is_decimal_zero;
use crate::ordered_map::has_key;
use crate::ordered_map::lemma_lookup_at;
use crate::ordered_map::lookup;
use crate::ordered_map::sorted;
use crate::ordered_map::OrderedMap;
use crate::strings::blank;
use crate::strings::debug_quoted;
use crate::strings::is_blank;
use crate::strings::quoted;

verus! {

/// The size that a catalog response may reach, in bytes.
pub const MAX_RESPONSE_BYTES: usize = 8 * 1024 * 1024;

/// A model of the catalog.
#[derive(Debug, PartialEq)]
pub struct Model {
    pub id: String,
    pub name: String,
    pub description: String,
    pub context_length: u64,
    pub pricing: OrderedMap<String>,
}

/// What a [`Model`] stands for.
pub struct ModelView {
    pub id: Seq<char>,
    pub name: Seq<char>,
    pub description: Seq<char>,
    pub context_length: u64,
    pub pricing: Seq<(Seq<char>, Seq<char>)>,
}

impl View for Model {
    type V = ModelView;

    open spec fn view(&self) -> ModelView {
        ModelView {
            id: self.id@,
            name: self.name@,
            description: self.description@,
            context_length: self.context_length,
            pricing: self.pricing@,
        }
    }
}

impl Clone for Model {
    fn clone(&self) -> (r: Self)
        ensures
            r@ == self@,
    {
        assert forall|a: String, b: String| #[trigger] cloned(a, b) implies a@ == b@ by {}
        Model {
            id: self.id.clone(),
            name: self.name.clone(),
            description: self.description.clone(),
            context_length: self.context_length,
            pricing: self.pricing.clone(),
        }
    }
}

/// Something that happened to a model between two catalogs.
#[derive(Debug, PartialEq)]
pub struct Event {
    pub model: Model,
    pub kind: String,
}

/// What an [`Event`] stands for.
pub struct EventView {
    pub model: ModelView,
    pub kind: Seq<char>,
}

impl View for Event {
    type V = EventView;

    open spec fn view(&self) -> EventView {
        EventView { model: self.model@, kind: self.kind@ }
    }
}

impl Clone for Event {
    fn clone(&self) -> (r: Self)
        ensures
            r@ == self@,
    {
        Event { model: self.model.clone(), kind: self.kind.clone() }
    }
}

/// Whether the named price is there and is zero.
pub open spec fn price_is_zero(pricing: Seq<(Seq<char>, Seq<char>)>, name: Seq<char>) -> bool {
    lookup(pricing, name) matches Some(price) && decimal_zero(price)
}

/// Whether a model is free: it has a prompt price and a completion price, and every price it
/// has is zero.
pub open spec fn free(model: ModelView) -> bool {
    &&& price_is_zero(model.pricing, "prompt"@)
    &&& price_is_zero(model.pricing, "completion"@)
    &&& forall|i: int|
        0 <= i < model.pricing.len() ==> decimal_zero((#[trigger] model.pricing[i]).1)
}

impl Model {
    /// Whether the catalog prices of the model are all exactly zero.
    pub fn is_free(&self) -> (r: bool)
        ensures
            r == free(self@),
    {
        let prompt = match self.pricing.get("prompt") {
            Some(price) => is_decimal_zero(price.as_str()),
            None => false,
        };
        if !prompt {
            return false;
        }
        let completion = match self.pricing.get("completion") {
            Some(price) => is_decimal_zero(price.as_str()),
            None => false,
        };
        if !completion {
            return false;
        }
        let mut i: usize = 0;
        while i < self.pricing.len()
            invariant
                i <= self.pricing@.len(),
                forall|j: int| 0 <= j < i ==> decimal_zero((#[trigger] self.pricing@[j]).1),
            decreases self.pricing@.len() - i,
        {
            if !is_decimal_zero(self.pricing.value(i).as_str()) {
                return false;
            }
            i = i + 1;
        }
        true
    }
}

/// Why a catalog is refused.
#[derive(Debug, PartialEq)]
pub enum CatalogError {
    Empty,
    EmptyIdentity,
    KeyMismatch { key: String, id: String },
    DuplicateId,
    ResponseTooLarge,
}

/// What a [`CatalogError`] stands for.
pub enum CatalogErrorView {
    Empty,
    EmptyIdentity,
    KeyMismatch { key: Seq<char>, id: Seq<char> },
    DuplicateId,
    ResponseTooLarge,
}

impl View for CatalogError {
    type V = CatalogErrorView;

    open spec fn view(&self) -> CatalogErrorView {
        match self {
            CatalogError::Empty => CatalogErrorView::Empty,
            CatalogError::EmptyIdentity => CatalogErrorView::EmptyIdentity,
            CatalogError::KeyMismatch { key, id } => CatalogErrorView::KeyMismatch {
                key: key@,
                id: id@,
            },
            CatalogError::DuplicateId => CatalogErrorView::DuplicateId,
            CatalogError::ResponseTooLarge => CatalogErrorView::ResponseTooLarge,
        }
    }
}

/// The text that reports an error.
pub open spec fn catalog_message(error: CatalogErrorView) -> Seq<char> {
    match error {
        CatalogErrorView::Empty => "catalog is empty"@,
        CatalogErrorView::EmptyIdentity => "model identity is empty"@,
        CatalogErrorView::KeyMismatch { key, id } => "catalog key "@ + debug_quoted(key)
            + " does not match model id "@ + debug_quoted(id),
        CatalogErrorView::DuplicateId => "duplicate model id"@,
        CatalogErrorView::ResponseTooLarge => "response exceeds 8 MiB limit"@,
    }
}

impl CatalogError {
    /// The text that reports the error.
    pub fn message(&self) -> (r: String)
        ensures
            r@ == catalog_message(self@),
    {
        match self {
            CatalogError::Empty => "catalog is empty".to_owned(),
            CatalogError::EmptyIdentity => "model identity is empty".to_owned(),
            CatalogError::KeyMismatch { key, id } => {
                let mut text = "catalog key ".to_owned();
                text.append(quoted(key.as_str()).as_str());
                text.append(" does not match model id ");
                text.append(quoted(id.as_str()).as_str());
                text
            },
            CatalogError::DuplicateId => "duplicate model id".to_owned(),
            CatalogError::ResponseTooLarge => "response exceeds 8 MiB limit".to_owned(),
        }
    }
}

/// Whether a model lacks an id or a name.
pub open spec fn unidentified(model: ModelView) -> bool {
    blank(model.id) || blank(model.name)
}

/// What is wrong with an entry of a catalog: its model is unidentified, or stands under a key
/// that is not its id.
pub open spec fn entry_fault(entry: (Seq<char>, ModelView)) -> Option<CatalogErrorView> {
    if unidentified(entry.1) {
        Some(CatalogErrorView::EmptyIdentity)
    } else if entry.0 != entry.1.id {
        Some(CatalogErrorView::KeyMismatch { key: entry.0, id: entry.1.id })
    } else {
        None
    }
}

/// A catalog that is not empty and has no fault in any entry.
pub open spec fn valid_catalog(entries: Seq<(Seq<char>, ModelView)>) -> bool {
    entries.len() > 0 && forall|i: int|
        0 <= i < entries.len() ==> entry_fault(#[trigger] entries[i]) is None
}

/// The entry at `i` is the first with a fault.
pub open spec fn first_entry_fault(entries: Seq<(Seq<char>, ModelView)>, i: int) -> bool {
    &&& 0 <= i < entries.len()
    &&& entry_fault(entries[i]) is Some
    &&& forall|j: int| 0 <= j < i ==> entry_fault(#[trigger] entries[j]) is None
}

/// The error for which a catalog is refused: that it is empty, or the fault of its first
/// faulty entry.
pub open spec fn catalog_refusal(
    entries: Seq<(Seq<char>, ModelView)>,
    error: CatalogErrorView,
) -> bool {
    ||| entries.len() == 0 && error == CatalogErrorView::Empty
    ||| exists|i: int| #[trigger]
        first_entry_fault(entries, i) && entry_fault(entries[i]) == Some(error)
}

/// Checks that a catalog is not empty, that every model has an id and a name, and that each
/// stands under its own id.
pub fn validate(catalog: &OrderedMap<Model>) -> (r: Result<(), CatalogError>)
    ensures
        r is Ok <==> valid_catalog(catalog@),
        r matches Err(error) ==> catalog_refusal(catalog@, error@),
{
    if catalog.is_empty() {
        return Err(CatalogError::Empty);
    }
    let mut i: usize = 0;
    while i < catalog.len()
        invariant
            i <= catalog@.len(),
            forall|j: int| 0 <= j < i ==> entry_fault(#[trigger] catalog@[j]) is None,
        decreases catalog@.len() - i,
    {
        let key = catalog.key(i);
        let model = catalog.value(i);
        if is_blank(model.id.as_str()) || is_blank(model.name.as_str()) {
            assert(first_entry_fault(catalog@, i as int));
            return Err(CatalogError::EmptyIdentity);
        }
        if *key != model.id {
            let error = CatalogError::KeyMismatch { key: key.clone(), id: model.id.clone() };
            assert(first_entry_fault(catalog@, i as int));
            return Err(error);
        }
        i = i + 1;
    }
    Ok(())
}

/// What is wrong with the model at `i` of a response: it is unidentified, or an earlier one
/// has its id.
pub open spec fn listing_fault(models: Seq<ModelView>, i: int) -> Option<CatalogErrorView> {
    if unidentified(models[i]) {
        Some(CatalogErrorView::EmptyIdentity)
    } else if listed_before(models, i) {
        Some(CatalogErrorView::DuplicateId)
    } else {
        None
    }
}

/// Whether a model before `i` has the id of the one at `i`.
pub open spec fn listed_before(models: Seq<ModelView>, i: int) -> bool {
    exists|j: int| 0 <= j < i && (#[trigger] models[j]).id == models[i].id
}

/// The model at `i` is the first with a fault.
pub open spec fn first_listing_fault(models: Seq<ModelView>, i: int) -> bool {
    &&& 0 <= i < models.len()
    &&& listing_fault(models, i) is Some
    &&& forall|j: int| 0 <= j < i ==> #[trigger] listing_fault(models, j) is None
}

/// A response that lists at least one model, and only models without a fault.
pub open spec fn valid_listing(models: Seq<ModelView>) -> bool {
    models.len() > 0 && forall|i: int|
        0 <= i < models.len() ==> #[trigger] listing_fault(models, i) is None
}

/// The entries are the models, each under its id.
pub open spec fn indexes(entries: Seq<(Seq<char>, ModelView)>, models: Seq<ModelView>) -> bool {
    &&& sorted(entries)
    &&& entries.len() == models.len()
    &&& forall|i: int|
        0 <= i < models.len() ==> lookup(entries, (#[trigger] models[i]).id) == Some(models[i])
    &&& forall|i: int|
        0 <= i < entries.len() ==> (#[trigger] entries[i]).0 == entries[i].1.id && models.contains(
            entries[i].1,
        )
}

/// The error for which a response is refused: that it lists nothing, or the fault of the
/// first faulty model.
pub open spec fn listing_refusal(models: Seq<ModelView>, error: CatalogErrorView) -> bool {
    ||| models.len() == 0 && error == CatalogErrorView::Empty
    ||| exists|i: int| #[trigger]
        first_listing_fault(models, i) && listing_fault(models, i) == Some(error)
}

/// The models of a list, as views.
pub open spec fn model_views(models: Seq<Model>) -> Seq<ModelView> {
    models.map_values(|m: Model| m@)
}

proof fn lemma_indexes_keys(
    entries: Seq<(Seq<char>, ModelView)>,
    models: Seq<ModelView>,
    id: Seq<char>,
)
    requires
        indexes(entries, models),
    ensures
        lookup(entries, id) is Some <==> exists|j: int|
            0 <= j < models.len() && (#[trigger] models[j]).id == id,
{
    if has_key(entries, id) {
        let x = choose|x: int| 0 <= x < entries.len() && #[trigger] entries[x].0 == id;
        assert(models.contains(entries[x].1));
        let j = choose|j: int| 0 <= j < models.len() && models[j] == entries[x].1;
        assert(models[j].id == id);
    }
}

proof fn lemma_indexes_grow(
    before: Seq<(Seq<char>, ModelView)>,
    after: Seq<(Seq<char>, ModelView)>,
    models: Seq<ModelView>,
    i: int,
)
    requires
        0 <= i < models.len(),
        indexes(before, models.take(i)),
        sorted(after),
        after.len() == before.len() + 1,
        !listed_before(models, i),
        forall|k: Seq<char>| #[trigger]
            lookup(after, k) == (if k == models[i].id {
                Some(models[i])
            } else {
                lookup(before, k)
            }),
    ensures
        indexes(after, models.take(i + 1)),
{
    let shorter = models.take(i);
    let longer = models.take(i + 1);
    let id = models[i].id;
    assert(longer[i] == models[i]);
    assert forall|j: int| 0 <= j < longer.len() implies lookup(after, (#[trigger] longer[j]).id)
        == Some(longer[j]) by {
        if j < i {
            assert(shorter[j] == longer[j]);
            assert(models[j] == longer[j]);
        }
    }
    assert forall|x: int| 0 <= x < after.len() implies (#[trigger] after[x]).0 == after[x].1.id
        && longer.contains(after[x].1) by {
        lemma_lookup_at(after, x);
        let key = after[x].0;
        if key != id {
            assert(lookup(after, key) == lookup(before, key));
            let y = choose|y: int| 0 <= y < before.len() && #[trigger] before[y].0 == key;
            lemma_lookup_at(before, y);
            let j = choose|j: int| 0 <= j < shorter.len() && shorter[j] == before[y].1;
            assert(longer[j] == shorter[j]);
        }
    }
}

/// The catalog of the models that a response lists.
pub fn parse_catalog(data: Vec<Model>) -> (r: Result<OrderedMap<Model>, CatalogError>)
    ensures
        r is Ok <==> valid_listing(model_views(data@)),
        match r {
            Ok(catalog) => {
                &&& indexes(catalog@, model_views(data@))
                &&& valid_catalog(catalog@)
            },
            Err(error) => listing_refusal(model_views(data@), error@),
        },
{
    let ghost models = model_views(data@);
    let mut catalog: OrderedMap<Model> = OrderedMap::new();
    for model in it: data
        invariant
            it.seq() == data@,
            models == model_views(data@),
            indexes(catalog@, models.take(it.index())),
            forall|j: int| 0 <= j < it.index() ==> #[trigger] listing_fault(models, j) is None,
    {
        let ghost at = it.index();
        assert(model@ == models[at]);
        if is_blank(model.id.as_str()) || is_blank(model.name.as_str()) {
            assert(first_listing_fault(models, at));
            return Err(CatalogError::EmptyIdentity);
        }
        let ghost before = catalog@;
        let previous = catalog.insert(model.id.clone(), model);
        proof {
            let earlier = models.take(at);
            lemma_indexes_keys(before, earlier, models[at].id);
            if previous is Some {
                let j = choose|j: int|
                    0 <= j < earlier.len() && (#[trigger] earlier[j]).id == models[at].id;
                assert(models[j].id == models[at].id);
                assert(listed_before(models, at));
                assert(first_listing_fault(models, at));
            } else {
                if listed_before(models, at) {
                    let j = choose|j: int| 0 <= j < at && (#[trigger] models[j]).id == models[at].id;
                    assert(earlier[j].id == models[at].id);
                }
                lemma_indexes_grow(before, catalog@, models, at);
            }
        }
        if previous.is_some() {
            return Err(CatalogError::DuplicateId);
        }
    }
    proof {
        assert(models.take(models.len() as int) =~= models);
        assert forall|x: int| 0 <= x < catalog@.len() implies entry_fault(
            #[trigger] catalog@[x],
        ) is None by {
            let j = choose|j: int| 0 <= j < models.len() && models[j] == catalog@[x].1;
            assert(listing_fault(models, j) is None);
        }
    }
    match validate(&catalog) {
        Ok(_) => Ok(catalog),
        Err(error) => Err(error),
    }
}

/// The body of a catalog response, as far as it has arrived.
#[derive(Debug)]
pub struct ResponseBody {
    payload: Vec<u8>,
}

impl View for ResponseBody {
    type V = Seq<u8>;

    closed spec fn view(&self) -> Seq<u8> {
        self.payload@
    }
}

impl ResponseBody {
    #[verifier::type_invariant]
    pub open spec fn within_limit(self) -> bool {
        self@.len() <= MAX_RESPONSE_BYTES
    }

    /// A body of which nothing has arrived.
    pub fn new() -> (r: Self)
        ensures
            r@ == Seq::<u8>::empty(),
    {
        ResponseBody { payload: Vec::new() }
    }

    /// Takes in the next chunk, unless the body would exceed the limit with it.
    pub fn accept(&mut self, chunk: &[u8]) -> (r: Result<(), CatalogError>)
        ensures
            match r {
                Ok(_) => {
                    &&& old(self)@.len() + chunk@.len() <= MAX_RESPONSE_BYTES
                    &&& final(self)@ == old(self)@ + chunk@
                },
                Err(error) => {
                    &&& old(self)@.len() + chunk@.len() > MAX_RESPONSE_BYTES
                    &&& final(self)@ == old(self)@
                    &&& error@ == CatalogErrorView::ResponseTooLarge
                },
            },
            final(self)@.len() <= MAX_RESPONSE_BYTES,
    {
        proof {
            use_type_invariant(&*self);
        }
        if chunk.len() > MAX_RESPONSE_BYTES - self.payload.len() {
            return Err(CatalogError::ResponseTooLarge);
        }
        let mut payload: Vec<u8> = Vec::new();
        std::mem::swap(&mut payload, &mut self.payload);
        payload.extend_from_slice(chunk);
        assert(payload@ =~= old(self)@ + chunk@);
        self.payload = payload;
        Ok(())
    }

    /// The bytes that have arrived.
    pub fn bytes(&self) -> (r: &[u8])
        ensures
            r@ == self@,
            r@.len() <= MAX_RESPONSE_BYTES,
    {
        proof {
            use_type_invariant(self);
        }
        self.payload.as_slice()
    }
}

/// What the entry of a current catalog means beside the previous catalog: a model with a new
/// key is new, and one that was not free and now is went from paid to free.
pub open spec fn change(
    previous: Seq<(Seq<char>, ModelView)>,
    entry: (Seq<char>, ModelView),
) -> Option<EventView> {
    match lookup(previous, entry.0) {
        None => Some(EventView { model: entry.1, kind: "new"@ }),
        Some(earlier) => if !free(earlier) && free(entry.1) {
            Some(EventView { model: entry.1, kind: "paid_to_free"@ })
        } else {
            None
        },
    }
}

/// The events between two catalogs, in the order of the current one.
pub open spec fn change_events(
    previous: Seq<(Seq<char>, ModelView)>,
    current: Seq<(Seq<char>, ModelView)>,
) -> Seq<EventView>
    decreases current.len(),
{
    if current.len() == 0 {
        Seq::empty()
    } else {
        let earlier = change_events(previous, current.drop_last());
        match change(previous, current.last()) {
            Some(event) => earlier.push(event),
            None => earlier,
        }
    }
}

/// The events of a list, as views.
pub open spec fn event_views(events: Seq<Event>) -> Seq<EventView> {
    events.map_values(|e: Event| e@)
}

/// The models that are new in the current catalog, and those that went from paid to free.
pub fn changes(previous: &OrderedMap<Model>, current: &OrderedMap<Model>) -> (r: Vec<Event>)
    ensures
        event_views(r@) == change_events(previous@, current@),
{
    let mut events: Vec<Event> = Vec::new();
    let mut i: usize = 0;
    assert(event_views(events@) =~= change_events(previous@, current@.take(0)));
    while i < current.len()
        invariant
            i <= current@.len(),
            event_views(events@) == change_events(previous@, current@.take(i as int)),
        decreases current@.len() - i,
    {
        let model = current.value(i);
        let ghost so_far = event_views(events@);
        let ghost upto = current@.take(i + 1);
        proof {
            assert(upto.drop_last() =~= current@.take(i as int));
            assert(upto.last() == current@[i as int]);
        }
        match previous.get(current.key(i).as_str()) {
            None => {
                events.push(Event { model: model.clone(), kind: "new".to_owned() });
                assert(event_views(events@) =~= so_far.push(
                    EventView { model: model@, kind: "new"@ },
                ));
            },
            Some(earlier) => {
                if !earlier.is_free() && model.is_free() {
                    events.push(Event { model: model.clone(), kind: "paid_to_free".to_owned() });
                    assert(event_views(events@) =~= so_far.push(
                        EventView { model: model@, kind: "paid_to_free"@ },
                    ));
                }
            },
        }
        i = i + 1;
    }
    assert(current@.take(current@.len() as int) =~= current@);
    events
}

/// A price as a response writes it.
#[derive(Debug, PartialEq)]
pub enum RawPrice {
    /// A string.
    Text(String),
    /// An array, of which only the number of items matters.
    Array(usize),
    /// A value of any other kind.
    Other,
}

/// What a [`RawPrice`] stands for.
pub enum RawPriceView {
    Text(Seq<char>),
    Array(usize),
    Other,
}

impl View for RawPrice {
    type V = RawPriceView;

    open spec fn view(&self) -> RawPriceView {
        match self {
            RawPrice::Text(text) => RawPriceView::Text(text@),
            RawPrice::Array(items) => RawPriceView::Array(*items),
            RawPrice::Other => RawPriceView::Other,
        }
    }
}

/// A price that is neither a string nor an array of overrides.
#[derive(Clone, Copy, Debug, PartialEq, Eq)]
pub struct PricingError;

impl PricingError {
    /// The text that reports the error.
    pub fn message(&self) -> (r: String)
        ensures
            r@ == "expected a pricing string or overrides array"@,
    {
        "expected a pricing string or overrides array".to_owned()
    }
}

/// The text of a price: an array of overrides counts as zero if it is empty and as tiered
/// pricing if it is not, and a string is taken as it stands.
pub open spec fn price_text(entry: (Seq<char>, RawPriceView)) -> Option<Seq<char>> {
    match entry.1 {
        RawPriceView::Array(items) => if entry.0 == "overrides"@ {
            Some(
                if items == 0 {
                    "0"@
                } else {
                    "tiered pricing"@
                },
            )
        } else {
            None
        },
        RawPriceView::Text(text) => Some(text),
        RawPriceView::Other => None,
    }
}

/// Whether every price has a text.
pub open spec fn readable(raw: Seq<(Seq<char>, RawPriceView)>) -> bool {
    forall|i: int| 0 <= i < raw.len() ==> price_text(#[trigger] raw[i]) is Some
}

/// The prices with their texts.
pub open spec fn price_texts(raw: Seq<(Seq<char>, RawPriceView)>) -> Seq<(Seq<char>, Seq<char>)> {
    Seq::new(raw.len(), |i: int| (raw[i].0, price_text(raw[i])->0))
}

/// The prices of a model, from how a response writes them.
pub fn deserialize_pricing(raw: &OrderedMap<RawPrice>) -> (r: Result<
    OrderedMap<String>,
    PricingError,
>)
    ensures
        r is Ok <==> readable(raw@),
        r matches Ok(pricing) ==> pricing@ == price_texts(raw@),
{
    let mut pricing: OrderedMap<String> = OrderedMap::new();
    let mut i: usize = 0;
    assert(pricing@ =~= price_texts(raw@.take(0)));
    while i < raw.len()
        invariant
            i <= raw@.len(),
            forall|j: int| 0 <= j < i ==> price_text(#[trigger] raw@[j]) is Some,
            pricing@ == price_texts(raw@.take(i as int)),
        decreases raw@.len() - i,
    {
        let key = raw.key(i);
        let text: String = match raw.value(i) {
            RawPrice::Array(items) => {
                if !is_overrides(key) {
                    assert(price_text(raw@[i as int]) is None);
                    return Err(PricingError);
                }
                if *items == 0 {
                    "0".to_owned()
                } else {
                    "tiered pricing".to_owned()
                }
            },
            RawPrice::Text(text) => text.clone(),
            RawPrice::Other => {
                assert(price_text(raw@[i as int]) is None);
                return Err(PricingError);
            },
        };
        proof {
            use_type_invariant(raw);
        }
        pricing.push_last(key.clone(), text);
        assert(pricing@ =~= price_texts(raw@.take(i + 1)));
        i = i + 1;
    }
    assert(raw@.take(raw@.len() as int) =~= raw@);
    Ok(pricing)
}

/// Whether a price is the one that lists overrides.
fn is_overrides(key: &String) -> (r: bool)
    ensures
        r == (key@ == "overrides"@),
{
    *key == "overrides".to_owned()
}

} // verus!
