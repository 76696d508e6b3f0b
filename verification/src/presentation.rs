//! What the bot shows: escaped text, model lines, and message embeds.

use poise::serenity_prelude::CreateAllowedMentions;
use poise::serenity_prelude::CreateEmbed;
use vstd::prelude::*;

use crate::discord::embed_contents;
use crate::discord::footer_with_text;
use crate::discord::mention_contents;
use crate::discord::with_colour;
use crate::discord::with_description;
use crate::discord::with_field;
use crate::discord::with_title;
use crate::discord::EmbedContents;
use crate::discord::FieldContents;
use crate::discord::FooterContents;
use crate::discord::MentionContents;
use crate::catalog::free;
use crate::catalog::Model;
use crate::catalog::ModelView;
use crate::escaping::escaped;
use crate::escaping::escaped_char;
use crate::escaping::is_control;
use crate::escaping::is_markup;
use crate::escaping::lemma_escaped_nonempty;
use crate::escaping::lemma_escaped_push;
use crate::escaping::lemma_fitting_at;
use crate::escaping::lemma_visible_next;
use crate::escaping::lemma_visible_prefix;
use crate::escaping::len_utf16;
use crate::escaping::shown_text;
use crate::escaping::units;
use crate::escaping::visible;
use crate::ordered_map::OrderedMap;
use crate::presentation_laws::browsed_models_are_the_listed_ones;
use crate::presentation_laws::empty_search_lists_the_eligible;
use crate::store::query_occurs;
use crate::store::State;
use crate::store::StateView;
use crate::strings::chars_of;
use crate::strings::contains;
use crate::strings::decimal;
use crate::strings::lower;
use crate::strings::lowered;
use crate::strings::push_decimal;

verus! {

/// The mentions of a message that mentions nobody.
pub fn no_mentions() -> (r: CreateAllowedMentions)
    ensures
        mention_contents(r) == (MentionContents {
            all_users: false,
            all_roles: false,
            everyone: false,
            replied_user: Some(false),
            none_listed: true,
        }),
{
    CreateAllowedMentions::new().all_users(false).all_roles(false).everyone(false).replied_user(
        false,
    )
}

/// What is shown of a text within `limit` UTF-16 units.
pub fn text(value: &str, limit: usize) -> (r: String)
    ensures
        r@ == shown_text(value@, limit as nat),
{
    if limit == 0 {
        return String::new();
    }
    let room: usize = limit - 1;
    let ghost whole = visible(value@);
    let mut result = String::new();
    let mut length: usize = 0;
    let chars = chars_of(value);
    let mut i: usize = 0;
    assert(visible(value@.take(0)) =~= Seq::<char>::empty()) by {
        reveal(Seq::filter);
    }
    while i < chars.len()
        invariant
            limit > 0,
            room == limit - 1,
            chars@ == value@,
            whole == visible(value@),
            i <= chars@.len(),
            result@ == escaped(visible(value@.take(i as int))),
            length == units(result@),
            length <= room,
        decreases chars@.len() - i,
    {
        let ch = chars[i];
        let ghost seen = visible(value@.take(i as int));
        proof {
            lemma_visible_next(value@, i as int);
        }
        if !is_control(ch) || ch == '\n' {
            let escape = is_markup(ch);
            let width: usize = if escape {
                len_utf16(ch) + 1
            } else {
                len_utf16(ch)
            };
            proof {
                lemma_escaped_push(seen, ch);
            }
            if width > room - length {
                result.push('\u{2026}');
                proof {
                    lemma_visible_prefix(value@, i as int);
                    lemma_visible_prefix(value@, i + 1);
                    lemma_fitting_at(whole, room as nat, seen.len() as int);
                }
                return result;
            }
            if escape {
                result.push('\\');
            }
            result.push(ch);
            assert(result@ =~= escaped(seen) + escaped_char(ch));
            length = length + width;
        }
        i = i + 1;
    }
    assert(value@.take(value@.len() as int) =~= value@);
    if result.as_str().is_empty() {
        proof {
            if whole.len() > 0 {
                lemma_escaped_nonempty(whole);
            }
            reveal_strlit("\u{2014}");
            assert("\u{2014}"@ =~= seq!['\u{2014}']);
        }
        "\u{2014}".to_owned()
    } else {
        result
    }
}

/// The footer of every embed.
pub open spec fn footer_text() -> Seq<char> {
    "Model Radar • Catalog prices, not unlimited access • Limits may apply"@
}

/// An embed with a title, the bot's colour and the footer.
pub open spec fn titled(title: Seq<char>) -> EmbedContents {
    EmbedContents {
        kind: Some("rich"@),
        title: Some(shown_text(title, 256)),
        description: None,
        colour: Some(0x8367ef),
        footer: Some(FooterContents { text: footer_text(), without_icon: true }),
        fields: Seq::empty(),
        plain: true,
    }
}

/// An embed with a title, the bot's colour and the footer.
pub fn embed(title: &str) -> (r: CreateEmbed)
    ensures
        embed_contents(r) == titled(title@),
{
    let named = with_title(CreateEmbed::new(), text(title, 256));
    with_colour(named, 0x8367ef).footer(
        footer_with_text("Model Radar • Catalog prices, not unlimited access • Limits may apply"),
    )
}

/// How a user browses the catalog.
#[derive(Debug)]
pub struct Browse {
    pub free_only: bool,
    pub search: String,
    pub min_context: u32,
    pub page: u32,
    pub page_size: u32,
    pub compact: bool,
}

/// What a [`Browse`] stands for.
pub struct BrowseView {
    pub free_only: bool,
    pub search: Seq<char>,
    pub min_context: u32,
    pub page: u32,
    pub page_size: u32,
    pub compact: bool,
}

impl View for Browse {
    type V = BrowseView;

    open spec fn view(&self) -> BrowseView {
        BrowseView {
            free_only: self.free_only,
            search: self.search@,
            min_context: self.min_context,
            page: self.page,
            page_size: self.page_size,
            compact: self.compact,
        }
    }
}

impl Default for Browse {
    fn default() -> (r: Self)
        ensures
            r@ == (BrowseView {
                free_only: true,
                search: Seq::empty(),
                min_context: 0,
                page: 1,
                page_size: 10,
                compact: false,
            }),
    {
        Browse {
            free_only: true,
            search: String::new(),
            min_context: 0,
            page: 1,
            page_size: 10,
            compact: false,
        }
    }
}

/// What a line says of a model's prices.
pub open spec fn price_label(model: ModelView) -> Seq<char> {
    if free(model) {
        "Free"@
    } else {
        "Paid / unknown"@
    }
}

/// The line that shows a model: its id, context and prices, below its name unless compact.
pub open spec fn line_of(model: ModelView, compact: bool) -> Seq<char> {
    let facts = shown_text(model.id, 220) + " · "@ + decimal(model.context_length as nat)
        + " tokens · "@ + price_label(model);
    if compact {
        facts
    } else {
        "**"@ + shown_text(model.name, 85) + "**\n"@ + facts
    }
}

/// The line that shows a model.
pub fn model_line(model: &Model, compact: bool) -> (r: String)
    ensures
        r@ == line_of(model@, compact),
{
    let mut line = String::new();
    if !compact {
        line.append("**");
        line.append(text(model.name.as_str(), 85).as_str());
        line.append("**\n");
    }
    line.append(text(model.id.as_str(), 220).as_str());
    line.append(" · ");
    push_decimal(&mut line, model.context_length);
    line.append(" tokens · ");
    if model.is_free() {
        line.append("Free");
    } else {
        line.append("Paid / unknown");
    }
    assert(line@ =~= line_of(model@, compact));
    line
}

/// Texts one after the other, with a separator between each two.
pub open spec fn joined(texts: Seq<Seq<char>>, separator: Seq<char>) -> Seq<char>
    decreases texts.len(),
{
    if texts.len() == 0 {
        Seq::empty()
    } else if texts.len() == 1 {
        texts[0]
    } else {
        joined(texts.drop_last(), separator) + separator + texts.last()
    }
}

/// Adding a text to those that are joined.
proof fn lemma_joined_push(texts: Seq<Seq<char>>, separator: Seq<char>, last: Seq<char>)
    ensures
        joined(texts.push(last), separator) == (if texts.len() == 0 {
            last
        } else {
            joined(texts, separator) + separator + last
        }),
{
    assert(texts.push(last).drop_last() =~= texts);
}

/// How a price is listed.
pub open spec fn price_line(price: (Seq<char>, Seq<char>)) -> Seq<char> {
    shown_text(price.0, 40) + ": "@ + shown_text(price.1, 45)
}

/// The first ten prices, each on a line.
pub open spec fn price_list(pricing: Seq<(Seq<char>, Seq<char>)>) -> Seq<char> {
    let first = if pricing.len() < 10 {
        pricing
    } else {
        pricing.take(10)
    };
    joined(first.map_values(|p: (Seq<char>, Seq<char>)| price_line(p)), "\n"@)
}

/// The first ten prices, each on a line.
fn list_prices(pricing: &OrderedMap<String>) -> (r: String)
    ensures
        r@ == price_list(pricing@),
{
    let mut list = String::new();
    let count: usize = if pricing.len() < 10 {
        pricing.len()
    } else {
        10
    };
    let ghost first = pricing@.take(count as int).map_values(
        |p: (Seq<char>, Seq<char>)| price_line(p),
    );
    let mut i: usize = 0;
    assert(first.take(0) =~= Seq::<Seq<char>>::empty());
    while i < count
        invariant
            i <= count <= pricing@.len(),
            first == pricing@.take(count as int).map_values(
                |p: (Seq<char>, Seq<char>)| price_line(p),
            ),
            list@ == joined(first.take(i as int), "\n"@),
        decreases count - i,
    {
        let ghost before = list@;
        if i > 0 {
            list.append("\n");
        }
        list.append(text(pricing.key(i).as_str(), 40).as_str());
        list.append(": ");
        list.append(text(pricing.value(i).as_str(), 45).as_str());
        proof {
            let line = price_line(pricing@[i as int]);
            assert(first.take(i + 1) =~= first.take(i as int).push(line));
            lemma_joined_push(first.take(i as int), "\n"@, line);
            if i == 0 {
                assert(list@ =~= line);
            } else {
                assert(list@ =~= before + "\n"@ + line);
            }
        }
        i = i + 1;
    }
    proof {
        assert(first.take(count as int) =~= first);
        if pricing@.len() < 10 {
            assert(pricing@.take(count as int) =~= pricing@);
        }
    }
    list
}

/// A field of an embed.
pub open spec fn field(name: Seq<char>, value: Seq<char>, inline: bool) -> FieldContents {
    FieldContents { name, value, inline }
}

/// The fields that every model's details have.
pub open spec fn detail_fields(model: ModelView) -> Seq<FieldContents> {
    seq![
        field("Model ID"@, shown_text(model.id, 1024), false),
        field("Context"@, decimal(model.context_length as nat) + " tokens"@, true),
        field(
            "Free catalog pricing"@,
            if free(model) {
                "Yes"@
            } else {
                "No / unknown"@
            },
            true,
        ),
    ]
}

/// The field that lists a model's prices.
pub open spec fn price_field(model: ModelView) -> FieldContents {
    let prices = price_list(model.pricing);
    field(
        "Raw USD prices (prompt/completion per token)"@,
        if prices.len() == 0 {
            "Unavailable"@
        } else {
            prices
        },
        false,
    )
}

/// The details of a model: its description unless compact, and its prices if they are asked
/// for.
pub open spec fn details_of(model: ModelView, compact: bool, show_pricing: bool) -> EmbedContents {
    EmbedContents {
        description: if compact {
            None
        } else {
            Some(shown_text(model.description, 2000))
        },
        fields: if show_pricing {
            detail_fields(model).push(price_field(model))
        } else {
            detail_fields(model)
        },
        ..titled(model.name)
    }
}

/// The details of a model.
pub fn model_details(model: &Model, compact: bool, show_pricing: bool) -> (r: CreateEmbed)
    ensures
        embed_contents(r) == details_of(model@, compact, show_pricing),
{
    let mut context = String::new();
    push_decimal(&mut context, model.context_length);
    context.append(" tokens");
    assert(context@ =~= decimal(model.context_length as nat) + " tokens"@);
    let label = if model.is_free() {
        "Yes".to_owned()
    } else {
        "No / unknown".to_owned()
    };
    let named = with_field(
        embed(model.name.as_str()),
        "Model ID",
        text(model.id.as_str(), 1024),
        false,
    );
    let mut result = with_field(
        with_field(named, "Context", context, true),
        "Free catalog pricing",
        label,
        true,
    );
    assert(embed_contents(result).fields =~= detail_fields(model@));
    if !compact {
        result = with_description(result, text(model.description.as_str(), 2000));
    }
    if show_pricing {
        let prices = list_prices(&model.pricing);
        let value = if prices.as_str().is_empty() {
            "Unavailable".to_owned()
        } else {
            prices
        };
        result =
        with_field(result, "Raw USD prices (prompt/completion per token)", value, false);
    }
    result
}

/// Whether a model is among those that a user browses, apart from the search: a free one if
/// only those are asked for, with enough context.
pub open spec fn eligible(options: BrowseView, model: ModelView) -> bool {
    (options.free_only ==> free(model)) && model.context_length >= options.min_context
}

/// Whether a model is among those that a user browses: an eligible one, with the search in its
/// id or its name, whatever the case.
pub open spec fn listed(options: BrowseView, model: ModelView) -> bool {
    &&& eligible(options, model)
    &&& query_occurs(lowered(options.search), lowered(model.name), lowered(model.id))
}

/// The models of a catalog that a user browses, in its order.
pub open spec fn matching(
    catalog: Seq<(Seq<char>, ModelView)>,
    options: BrowseView,
) -> Seq<ModelView>
    decreases catalog.len(),
{
    if catalog.len() == 0 {
        Seq::empty()
    } else {
        let earlier = matching(catalog.drop_last(), options);
        if listed(options, catalog.last().1) {
            earlier.push(catalog.last().1)
        } else {
            earlier
        }
    }
}

/// The models behind references, as views.
pub open spec fn referents(models: Seq<&Model>) -> Seq<ModelView> {
    models.map_values(|m: &Model| m@)
}

impl Browse {
    /// Whether a model is among those that are browsed, given the search, the model's name and
    /// its id in the form in which they are compared.
    pub fn lists(&self, model: &Model, query: &str, name: &str, id: &str) -> (r: bool)
        ensures
            r == (eligible(self@, model@) && query_occurs(query@, name@, id@)),
    {
        (!self.free_only || model.is_free()) && model.context_length >= self.min_context as u64 && (
        contains(id, query) || contains(name, query))
    }

    /// The models of a catalog that are browsed, in its order; without a search, all that are
    /// eligible.
    pub fn select<'a>(&self, catalog: &'a OrderedMap<Model>) -> (r: Vec<&'a Model>)
        ensures
            referents(r@) == matching(catalog@, self@),
            self.search@.len() == 0 ==> forall|i: int|
                0 <= i < catalog@.len() && eligible(self@, (#[trigger] catalog@[i]).1)
                    ==> referents(r@).contains(catalog@[i].1),
    {
        let query = lower(self.search.as_str());
        let mut models: Vec<&'a Model> = Vec::new();
        let mut i: usize = 0;
        assert(referents(models@) =~= matching(catalog@.take(0), self@));
        while i < catalog.len()
            invariant
                i <= catalog@.len(),
                query@ == lowered(self.search@),
                referents(models@) == matching(catalog@.take(i as int), self@),
            decreases catalog@.len() - i,
        {
            let model = catalog.value(i);
            let name = lower(model.name.as_str());
            let id = lower(model.id.as_str());
            let ghost so_far = referents(models@);
            proof {
                assert(catalog@.take(i + 1).drop_last() =~= catalog@.take(i as int));
            }
            if self.lists(model, query.as_str(), name.as_str(), id.as_str()) {
                models.push(model);
                assert(referents(models@) =~= so_far.push(model@));
            }
            i = i + 1;
        }
        assert(catalog@.take(catalog@.len() as int) =~= catalog@);
        proof {
            if self.search@.len() == 0 {
                assert forall|j: int|
                    0 <= j < catalog@.len() && eligible(
                        self@,
                        (#[trigger] catalog@[j]).1,
                    ) implies referents(models@).contains(catalog@[j].1) by {
                    let model = catalog@[j].1;
                    empty_search_lists_the_eligible(self@, model);
                    browsed_models_are_the_listed_ones(catalog@, self@, model);
                }
            }
        }
        models
    }
}

/// The number of models on a page: what is asked for, but at least one and at most ten.
pub open spec fn page_size(options: BrowseView) -> nat {
    if options.page_size < 1 {
        1
    } else if options.page_size > 10 {
        10
    } else {
        options.page_size as nat
    }
}

/// The number of pages that `count` models take, and one where there are none.
pub open spec fn page_count(count: nat, size: nat) -> nat {
    if count == 0 {
        1
    } else {
        ((count - 1) / size as int + 1) as nat
    }
}

/// The page that is shown: the one asked for, or the nearest that there is.
pub open spec fn page_shown(options: BrowseView, pages: nat) -> nat {
    if options.page < 1 {
        1
    } else if options.page > pages {
        pages
    } else {
        options.page as nat
    }
}

/// Where a page starts among the models.
pub open spec fn page_start(page: nat, size: nat) -> int {
    (page - 1) * size
}

/// Where a page ends among `count` models.
pub open spec fn page_end(page: nat, size: nat, count: nat) -> int {
    if page * size < count {
        (page * size) as int
    } else {
        count as int
    }
}

/// The models on a page.
pub open spec fn page_of(models: Seq<ModelView>, page: nat, size: nat) -> Seq<ModelView> {
    models.subrange(page_start(page, size), page_end(page, size, models.len()))
}

/// The lines of a page.
pub open spec fn page_lines(models: Seq<ModelView>, compact: bool) -> Seq<char> {
    joined(models.map_values(|m: ModelView| line_of(m, compact)), "\n\n"@)
}

/// When the catalog was last fetched.
pub open spec fn freshness(last_success: Option<u64>) -> Seq<char> {
    match last_success {
        Some(time) => "Last successful catalog fetch: <t:"@ + decimal(time as nat) + ":f> (<t:"@
            + decimal(time as nat) + ":R>)."@,
        None => "No successful catalog fetch recorded."@,
    }
}

/// The text of a snapshot.
pub open spec fn snapshot_description(
    last_success: Option<u64>,
    lines: Seq<char>,
) -> Seq<char> {
    "Snapshot only; not live updating. Catalog freshness, not bot uptime or health.\n"@ + freshness(
        last_success,
    ) + "\n\n"@ + (if lines.len() == 0 {
        "No matching models."@
    } else {
        lines
    })
}

/// The number of free models in a catalog.
pub open spec fn free_count(catalog: Seq<(Seq<char>, ModelView)>) -> nat
    decreases catalog.len(),
{
    if catalog.len() == 0 {
        0
    } else {
        free_count(catalog.drop_last()) + if free(catalog.last().1) {
            1nat
        } else {
            0
        }
    }
}

/// The text of the field that counts models.
pub open spec fn count_text(total: nat, free: nat, matching: nat) -> Seq<char> {
    decimal(total) + " total · "@ + decimal(free) + " free · "@ + decimal(matching) + " matching"@
}

/// How a yes or no is written.
pub open spec fn flag_text(flag: bool) -> Seq<char> {
    if flag {
        "true"@
    } else {
        "false"@
    }
}

/// The text of the field that repeats the filters.
pub open spec fn filter_text(options: BrowseView) -> Seq<char> {
    "Scope: "@ + (if options.free_only {
        "Free only"@
    } else {
        "All models"@
    }) + "\nSearch: "@ + shown_text(options.search, 240) + "\nMinimum context: "@ + decimal(
        options.min_context as nat,
    ) + " tokens\nCompact: "@ + flag_text(options.compact)
}

/// The text of the field that tells the page.
pub open spec fn page_text(page: nat, pages: nat, size: nat) -> Seq<char> {
    decimal(page) + "/"@ + decimal(pages) + " · "@ + decimal(size) + " per page"@
}

/// The text of the field that tells how often the catalog is fetched.
pub open spec fn poll_text(poll_seconds: u64) -> Seq<char> {
    decimal(poll_seconds as nat) + " seconds · run /status again to refresh this snapshot"@
}

/// A snapshot of the catalog, given the models that are browsed.
pub open spec fn snapshot_of(
    state: StateView,
    options: BrowseView,
    poll_seconds: u64,
    models: Seq<ModelView>,
) -> EmbedContents {
    let size = page_size(options);
    let pages = page_count(models.len(), size);
    let page = page_shown(options, pages);
    EmbedContents {
        description: Some(
            snapshot_description(
                state.last_success,
                page_lines(page_of(models, page, size), options.compact),
            ),
        ),
        fields: seq![
            field(
                "Catalog"@,
                count_text(state.catalog.len(), free_count(state.catalog), models.len()),
                false,
            ),
            field("Filters"@, filter_text(options), false),
            field("Page"@, page_text(page, pages, size), true),
            field("Poll interval"@, poll_text(poll_seconds), false),
        ],
        ..titled("Catalog snapshot"@)
    }
}

/// The number of free models in a catalog.
fn count_free(catalog: &OrderedMap<Model>) -> (r: usize)
    ensures
        r == free_count(catalog@),
        r <= catalog@.len(),
{
    let mut count: usize = 0;
    let mut i: usize = 0;
    while i < catalog.len()
        invariant
            count <= i <= catalog@.len(),
            count == free_count(catalog@.take(i as int)),
        decreases catalog@.len() - i,
    {
        proof {
            assert(catalog@.take(i + 1).drop_last() =~= catalog@.take(i as int));
        }
        if catalog.value(i).is_free() {
            count = count + 1;
        }
        i = i + 1;
    }
    assert(catalog@.take(catalog@.len() as int) =~= catalog@);
    count
}

/// The lines of the models from `start` up to `end`.
fn write_lines(models: &Vec<&Model>, start: usize, end: usize, compact: bool) -> (r: String)
    requires
        start <= end <= models@.len(),
    ensures
        r@ == page_lines(referents(models@).subrange(start as int, end as int), compact),
{
    let mut lines = String::new();
    let ghost all = referents(models@).subrange(start as int, end as int).map_values(
        |m: ModelView| line_of(m, compact),
    );
    let mut i: usize = start;
    assert(all.take(0) =~= Seq::<Seq<char>>::empty());
    while i < end
        invariant
            start <= i <= end <= models@.len(),
            all == referents(models@).subrange(start as int, end as int).map_values(
                |m: ModelView| line_of(m, compact),
            ),
            lines@ == joined(all.take(i - start), "\n\n"@),
        decreases end - i,
    {
        let ghost before = lines@;
        if i > start {
            lines.append("\n\n");
        }
        lines.append(model_line(models[i], compact).as_str());
        proof {
            let line = line_of(models@[i as int]@, compact);
            let at = i - start;
            assert(all.take(at + 1) =~= all.take(at).push(line));
            lemma_joined_push(all.take(at), "\n\n"@, line);
            if at == 0 {
                assert(lines@ =~= line);
            } else {
                assert(lines@ =~= before + "\n\n"@ + line);
            }
        }
        i = i + 1;
    }
    assert(all.take(end - start) =~= all);
    lines
}

/// A page that there is starts within the models.
proof fn lemma_page_start(count: nat, size: nat, page: nat)
    requires
        size >= 1,
        1 <= page <= page_count(count, size),
    ensures
        0 <= page_start(page, size) <= count,
        page * size == page_start(page, size) + size,
        count > 0 ==> page_start(page, size) < count,
{
    assert(page * size == (page - 1) * size + size) by (nonlinear_arith);
    assert((page - 1) * size >= 0) by (nonlinear_arith)
        requires
            page >= 1,
    ;
    if count > 0 {
        let last = (count - 1) / size as int;
        assert((page - 1) * size <= last * size) by (nonlinear_arith)
            requires
                page - 1 <= last,
                size >= 1,
        ;
        assert(last * size <= count - 1) by (nonlinear_arith)
            requires
                last == (count - 1) / size as int,
                size >= 1,
        ;
    } else {
        assert(page == 1);
        assert((page - 1) * size == 0) by (nonlinear_arith)
            requires
                page == 1,
        ;
    }
}

/// When the catalog was last fetched.
fn tell_freshness(last_success: Option<u64>) -> (r: String)
    ensures
        r@ == freshness(last_success),
{
    match last_success {
        Some(time) => {
            let mut told = "Last successful catalog fetch: <t:".to_owned();
            push_decimal(&mut told, time);
            told.append(":f> (<t:");
            push_decimal(&mut told, time);
            told.append(":R>).");
            told
        },
        None => "No successful catalog fetch recorded.".to_owned(),
    }
}

/// The text of the field that repeats the filters.
fn tell_filters(options: &Browse) -> (r: String)
    ensures
        r@ == filter_text(options@),
{
    let mut told = "Scope: ".to_owned();
    if options.free_only {
        told.append("Free only");
    } else {
        told.append("All models");
    }
    told.append("\nSearch: ");
    told.append(text(options.search.as_str(), 240).as_str());
    told.append("\nMinimum context: ");
    push_decimal(&mut told, options.min_context as u64);
    told.append(" tokens\nCompact: ");
    if options.compact {
        told.append("true");
    } else {
        told.append("false");
    }
    told
}

/// The text of the field that counts models.
fn tell_counts(total: usize, free: usize, matching: usize) -> (r: String)
    ensures
        r@ == count_text(total as nat, free as nat, matching as nat),
{
    let mut told = String::new();
    push_decimal(&mut told, total as u64);
    told.append(" total · ");
    push_decimal(&mut told, free as u64);
    told.append(" free · ");
    push_decimal(&mut told, matching as u64);
    told.append(" matching");
    assert(told@ =~= count_text(total as nat, free as nat, matching as nat));
    told
}

/// The text of the field that tells the page.
fn tell_page(page: usize, pages: usize, size: usize) -> (r: String)
    ensures
        r@ == page_text(page as nat, pages as nat, size as nat),
{
    let mut told = String::new();
    push_decimal(&mut told, page as u64);
    told.append("/");
    push_decimal(&mut told, pages as u64);
    told.append(" · ");
    push_decimal(&mut told, size as u64);
    told.append(" per page");
    assert(told@ =~= page_text(page as nat, pages as nat, size as nat));
    told
}

/// The text of a snapshot.
fn tell_description(last_success: Option<u64>, lines: &str) -> (r: String)
    ensures
        r@ == snapshot_description(last_success, lines@),
{
    let mut description =
        "Snapshot only; not live updating. Catalog freshness, not bot uptime or health.\n".to_owned();
    description.append(tell_freshness(last_success).as_str());
    description.append("\n\n");
    if lines.is_empty() {
        description.append("No matching models.");
    } else {
        description.append(lines);
    }
    description
}

/// The text of the field that tells how often the catalog is fetched.
fn tell_poll(poll_seconds: u64) -> (r: String)
    ensures
        r@ == poll_text(poll_seconds),
{
    let mut told = String::new();
    push_decimal(&mut told, poll_seconds);
    told.append(" seconds · run /status again to refresh this snapshot");
    assert(told@ =~= poll_text(poll_seconds));
    told
}

/// Which page of how many is shown, and where it stands among the models.
#[derive(Clone, Copy, Debug, PartialEq, Eq)]
pub struct Page {
    pub number: usize,
    pub of: usize,
    pub size: usize,
    pub start: usize,
    pub end: usize,
}

impl Browse {
    /// The page that is shown of `count` models.
    pub fn paginate(&self, count: usize) -> (r: Page)
        ensures
            r.size == page_size(self@),
            r.of == page_count(count as nat, r.size as nat),
            r.number == page_shown(self@, r.of as nat),
            r.start == page_start(r.number as nat, r.size as nat),
            r.end == page_end(r.number as nat, r.size as nat, count as nat),
            r.start <= r.end <= count,
    {
        let size: usize = if self.page_size < 1 {
            1
        } else if self.page_size > 10 {
            10
        } else {
            self.page_size as usize
        };
        let pages: usize = if count == 0 {
            1
        } else {
            (count - 1) / size + 1
        };
        let asked: usize = self.page as usize;
        let page: usize = if asked < 1 {
            1
        } else if asked > pages {
            pages
        } else {
            asked
        };
        proof {
            lemma_page_start(count as nat, size as nat, page as nat);
        }
        let start: usize = (page - 1) * size;
        let end: usize = if count - start < size {
            count
        } else {
            start + size
        };
        Page { number: page, of: pages, size, start, end }
    }
}

/// A snapshot of the catalog, given the models that are browsed.
pub fn render_snapshot(
    state: &State,
    options: &Browse,
    poll_seconds: u64,
    models: &Vec<&Model>,
) -> (r: CreateEmbed)
    ensures
        embed_contents(r) == snapshot_of(state@, options@, poll_seconds, referents(models@)),
{
    let page = options.paginate(models.len());
    let lines = write_lines(models, page.start, page.end, options.compact);
    let described = with_description(
        embed("Catalog snapshot"),
        tell_description(state.last_success, lines.as_str()),
    );
    let counted = with_field(
        described,
        "Catalog",
        tell_counts(state.catalog.len(), count_free(&state.catalog), models.len()),
        false,
    );
    let filtered = with_field(counted, "Filters", tell_filters(options), false);
    let paged = with_field(filtered, "Page", tell_page(page.number, page.of, page.size), true);
    let polled = with_field(paged, "Poll interval", tell_poll(poll_seconds), false);
    assert(embed_contents(polled).fields =~= snapshot_of(
        state@,
        options@,
        poll_seconds,
        referents(models@),
    ).fields);
    polled
}

/// A snapshot of the catalog: a page of the models that are browsed, how fresh the catalog
/// is, and what was asked for.
pub fn snapshot(state: &State, options: &Browse, poll_seconds: u64) -> (r: CreateEmbed)
    ensures
        embed_contents(r) == snapshot_of(
            state@,
            options@,
            poll_seconds,
            matching(state@.catalog, options@),
        ),
{
    let models = options.select(&state.catalog);
    render_snapshot(state, options, poll_seconds, &models)
}

} // verus!
