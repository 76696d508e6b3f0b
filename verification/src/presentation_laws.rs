//! What holds of pages and embeds as a whole.

use vstd::prelude::*;

use crate::catalog::free;
use crate::catalog::Model;
use crate::catalog::ModelView;
use crate::discord::EmbedContents;
use crate::discord::FieldContents;
use crate::discord::FooterContents;
use crate::escaping::lemma_units_add;
use crate::escaping::lemma_units_bounds;
use crate::escaping::shown_text;
use crate::escaping::shown_text_is_not_empty;
use crate::escaping::shown_text_is_within_limit;
use crate::escaping::units;
use crate::escaping::utf16_width;
use crate::presentation::count_text;
use crate::presentation::detail_fields;
use crate::presentation::details_of;
use crate::presentation::eligible;
use crate::presentation::filter_text;
use crate::presentation::footer_text;
use crate::presentation::free_count;
use crate::presentation::freshness;
use crate::presentation::joined;
use crate::presentation::line_of;
use crate::presentation::listed;
use crate::presentation::matching;
use crate::presentation::page_count;
use crate::presentation::page_end;
use crate::presentation::page_lines;
use crate::presentation::page_of;
use crate::presentation::page_shown;
use crate::presentation::page_size;
use crate::presentation::page_start;
use crate::presentation::page_text;
use crate::presentation::poll_text;
use crate::presentation::price_field;
use crate::presentation::price_label;
use crate::presentation::price_line;
use crate::presentation::price_list;
use crate::presentation::referents;
use crate::presentation::snapshot_description;
use crate::presentation::snapshot_of;
use crate::presentation::titled;
use crate::presentation::Browse;
use crate::presentation::BrowseView;
use crate::store::StateView;
use crate::store::query_occurs;
use crate::strings::ascii_digit;
use crate::strings::decimal;
use crate::strings::lemma_decimal_digits;
use crate::strings::lemma_decimal_u64;
use crate::strings::lemma_empty_occurs;
use crate::strings::lowered;
use crate::strings::occurs_in;
use crate::text_laws::parts_occur;
use crate::text_laws::what_occurs_is_a_part;

verus! {

/// The units of an optional text.
pub open spec fn part_units(part: Option<Seq<char>>) -> nat {
    match part {
        Some(text) => units(text),
        None => 0,
    }
}

/// The units of an optional footer.
pub open spec fn footer_units(footer: Option<FooterContents>) -> nat {
    match footer {
        Some(footer) => units(footer.text),
        None => 0,
    }
}

/// The units of the names and values of fields.
pub open spec fn field_units(fields: Seq<FieldContents>) -> nat
    decreases fields.len(),
{
    if fields.len() == 0 {
        0
    } else {
        field_units(fields.drop_last()) + units(fields.last().name) + units(fields.last().value)
    }
}

/// An embed that Discord accepts: a title of at most 256 units, a description of at most
/// 4096, a footer of at most 2048, at most 25 fields with names of 1 to 256 units and values
/// of 1 to 1024, and at most 6000 units in all.
pub open spec fn acceptable(embed: EmbedContents) -> bool {
    &&& part_units(embed.title) <= 256
    &&& part_units(embed.description) <= 4096
    &&& footer_units(embed.footer) <= 2048
    &&& embed.fields.len() <= 25
    &&& forall|i: int|
        0 <= i < embed.fields.len() ==> 1 <= units((#[trigger] embed.fields[i]).name) <= 256
            && 1 <= units(embed.fields[i].value) <= 1024
    &&& part_units(embed.title) + part_units(embed.description) + footer_units(embed.footer)
        + field_units(embed.fields) <= 6000
}

/// A text without characters of two units has as many units as characters.
proof fn lemma_units_narrow(s: Seq<char>)
    requires
        forall|i: int| 0 <= i < s.len() ==> utf16_width(#[trigger] s[i]) == 1,
    ensures
        units(s) == s.len(),
    decreases s.len(),
{
    if s.len() > 0 {
        let front = s.drop_last();
        assert forall|i: int| 0 <= i < front.len() implies utf16_width(#[trigger] front[i])
            == 1 by {
            assert(front[i] == s[i]);
        }
        assert(s.last() == s[s.len() - 1]);
        lemma_units_narrow(front);
    }
}

proof fn lemma_decimal_units(n: nat)
    requires
        n <= u64::MAX,
    ensures
        1 <= units(decimal(n)) <= 20,
{
    lemma_decimal_u64(n as u64);
    lemma_decimal_digits(n);
    assert forall|i: int| 0 <= i < decimal(n).len() implies utf16_width(#[trigger] decimal(n)[i])
        == 1 by {
        assert(ascii_digit(decimal(n)[i]));
    }
    lemma_units_narrow(decimal(n));
}

proof fn lemma_shown_units(value: Seq<char>, limit: nat)
    requires
        limit > 0,
    ensures
        1 <= units(shown_text(value, limit)) <= limit,
{
    shown_text_is_within_limit(value, limit);
    shown_text_is_not_empty(value, limit);
    lemma_units_bounds(shown_text(value, limit));
}

/// The line of a model takes at most 357 units.
proof fn lemma_line_units(model: ModelView, compact: bool)
    ensures
        1 <= units(line_of(model, compact)) <= 357,
{
    reveal_strlit(" · ");
    reveal_strlit(" tokens · ");
    reveal_strlit("Free");
    reveal_strlit("Paid / unknown");
    reveal_strlit("**");
    reveal_strlit("**\n");
    lemma_units_narrow(" · "@);
    lemma_units_narrow(" tokens · "@);
    lemma_units_narrow("Free"@);
    lemma_units_narrow("Paid / unknown"@);
    lemma_units_narrow("**"@);
    lemma_units_narrow("**\n"@);
    lemma_shown_units(model.id, 220);
    lemma_shown_units(model.name, 85);
    lemma_decimal_units(model.context_length as nat);
    let id = shown_text(model.id, 220);
    let context = decimal(model.context_length as nat);
    let label = price_label(model);
    lemma_units_add(id, " · "@);
    lemma_units_add(id + " · "@, context);
    lemma_units_add(id + " · "@ + context, " tokens · "@);
    lemma_units_add(id + " · "@ + context + " tokens · "@, label);
    let facts = id + " · "@ + context + " tokens · "@ + label;
    let name = shown_text(model.name, 85);
    lemma_units_add("**"@, name);
    lemma_units_add("**"@ + name, "**\n"@);
    lemma_units_add("**"@ + name + "**\n"@, facts);
}

/// Joined texts take no more units than each at its greatest with a separator.
proof fn lemma_joined_units(texts: Seq<Seq<char>>, separator: Seq<char>, each: nat)
    requires
        forall|i: int| 0 <= i < texts.len() ==> units(#[trigger] texts[i]) <= each,
    ensures
        units(joined(texts, separator)) <= texts.len() * (each + units(separator)),
    decreases texts.len(),
{
    let step = each + units(separator);
    if texts.len() == 1 {
        assert(texts.len() * step == step) by (nonlinear_arith)
            requires
                texts.len() == 1,
        ;
    } else if texts.len() > 1 {
        let front = texts.drop_last();
        assert forall|i: int| 0 <= i < front.len() implies units(#[trigger] front[i]) <= each by {
            assert(front[i] == texts[i]);
        }
        lemma_joined_units(front, separator, each);
        lemma_units_add(joined(front, separator), separator);
        lemma_units_add(joined(front, separator) + separator, texts.last());
        assert(texts.last() == texts[texts.len() - 1]);
        assert(texts.len() * step == front.len() * step + step) by (nonlinear_arith)
            requires
                texts.len() == front.len() + 1,
        ;
    }
}

/// At most ten joined texts of bounded length.
proof fn lemma_ten_joined_units(texts: Seq<Seq<char>>, separator: Seq<char>, each: nat)
    requires
        texts.len() <= 10,
        forall|i: int| 0 <= i < texts.len() ==> units(#[trigger] texts[i]) <= each,
    ensures
        units(joined(texts, separator)) <= 10 * (each + units(separator)),
{
    lemma_joined_units(texts, separator, each);
    let step = each + units(separator);
    assert(texts.len() * step <= 10 * step) by (nonlinear_arith)
        requires
            texts.len() <= 10,
    ;
}

proof fn lemma_price_line_units(price: (Seq<char>, Seq<char>))
    ensures
        units(price_line(price)) <= 87,
{
    reveal_strlit(": ");
    lemma_units_narrow(": "@);
    lemma_shown_units(price.0, 40);
    lemma_shown_units(price.1, 45);
    let key = shown_text(price.0, 40);
    lemma_units_add(key, ": "@);
    lemma_units_add(key + ": "@, shown_text(price.1, 45));
}

/// The list of prices takes at most 880 units.
proof fn lemma_price_list_units(pricing: Seq<(Seq<char>, Seq<char>)>)
    ensures
        units(price_list(pricing)) <= 880,
{
    let first = if pricing.len() < 10 {
        pricing
    } else {
        pricing.take(10)
    };
    let lines = first.map_values(|p: (Seq<char>, Seq<char>)| price_line(p));
    assert forall|i: int| 0 <= i < lines.len() implies units(#[trigger] lines[i]) <= 87 by {
        lemma_price_line_units(first[i]);
    }
    reveal_strlit("\n");
    lemma_units_narrow("\n"@);
    lemma_ten_joined_units(lines, "\n"@, 87);
}

proof fn lemma_footer_units()
    ensures
        units(footer_text()) <= 140,
{
    reveal_strlit("Model Radar • Catalog prices, not unlimited access • Limits may apply");
    lemma_units_bounds(footer_text());
}

/// The title and the footer leave room for what an embed shows.
pub proof fn bare_embeds_are_acceptable(title: Seq<char>)
    ensures
        acceptable(titled(title)),
{
    lemma_shown_units(title, 256);
    lemma_footer_units();
}

proof fn lemma_field_units_push(fields: Seq<FieldContents>, field: FieldContents)
    ensures
        field_units(fields.push(field)) == field_units(fields) + units(field.name) + units(
            field.value,
        ),
{
    assert(fields.push(field).drop_last() =~= fields);
}

proof fn lemma_detail_fields_units(model: ModelView)
    ensures
        field_units(detail_fields(model)) <= 1200,
        forall|i: int|
            0 <= i < 3 ==> 1 <= units((#[trigger] detail_fields(model)[i]).name) <= 256 && 1
                <= units(detail_fields(model)[i].value) <= 1024,
{
    reveal_strlit("Model ID");
    reveal_strlit("Context");
    reveal_strlit(" tokens");
    reveal_strlit("Free catalog pricing");
    reveal_strlit("Yes");
    reveal_strlit("No / unknown");
    lemma_units_bounds("Model ID"@);
    lemma_units_bounds("Context"@);
    lemma_units_bounds(" tokens"@);
    lemma_units_bounds("Free catalog pricing"@);
    lemma_units_bounds("Yes"@);
    lemma_units_bounds("No / unknown"@);
    lemma_shown_units(model.id, 1024);
    lemma_decimal_units(model.context_length as nat);
    lemma_units_add(decimal(model.context_length as nat), " tokens"@);
    let f = detail_fields(model);
    let none = Seq::<FieldContents>::empty();
    lemma_field_units_push(none, f[0]);
    lemma_field_units_push(none.push(f[0]), f[1]);
    lemma_field_units_push(none.push(f[0]).push(f[1]), f[2]);
    assert(none.push(f[0]).push(f[1]).push(f[2]) =~= f);
}

proof fn lemma_price_field_units(model: ModelView)
    ensures
        1 <= units(price_field(model).name) <= 88,
        1 <= units(price_field(model).value) <= 880,
{
    reveal_strlit("Raw USD prices (prompt/completion per token)");
    reveal_strlit("Unavailable");
    lemma_units_bounds("Raw USD prices (prompt/completion per token)"@);
    lemma_units_bounds("Unavailable"@);
    lemma_price_list_units(model.pricing);
    lemma_units_bounds(price_list(model.pricing));
}

/// Discord accepts the details of every model, whatever texts and prices it comes with.
pub proof fn details_are_acceptable(model: ModelView, compact: bool, show_pricing: bool)
    ensures
        acceptable(details_of(model, compact, show_pricing)),
{
    bare_embeds_are_acceptable(model.name);
    lemma_shown_units(model.name, 256);
    lemma_footer_units();
    lemma_shown_units(model.description, 2000);
    lemma_detail_fields_units(model);
    lemma_price_field_units(model);
    lemma_field_units_push(detail_fields(model), price_field(model));
    let e = details_of(model, compact, show_pricing);
    assert forall|i: int| 0 <= i < e.fields.len() implies 1 <= units(
        (#[trigger] e.fields[i]).name,
    ) <= 256 && 1 <= units(e.fields[i].value) <= 1024 by {
        if i < 3 {
            assert(e.fields[i] == detail_fields(model)[i]);
        } else {
            assert(e.fields[i] == price_field(model));
        }
    }
}

/// The details of a model have three fields, and a fourth if prices are shown; they have a
/// description unless they are compact.
pub proof fn details_follow_their_settings(model: ModelView, compact: bool, show_pricing: bool)
    ensures
        details_of(model, compact, show_pricing).fields.len() == if show_pricing {
            4nat
        } else {
            3
        },
        details_of(model, compact, show_pricing).description is None <==> compact,
{
}

proof fn lemma_freshness_units(last_success: Option<u64>)
    ensures
        units(freshness(last_success)) <= 136,
{
    reveal_strlit("Last successful catalog fetch: <t:");
    reveal_strlit(":f> (<t:");
    reveal_strlit(":R>).");
    reveal_strlit("No successful catalog fetch recorded.");
    let a = "Last successful catalog fetch: <t:"@;
    let b = ":f> (<t:"@;
    let c = ":R>)."@;
    lemma_units_bounds(a);
    lemma_units_bounds(b);
    lemma_units_bounds(c);
    lemma_units_bounds("No successful catalog fetch recorded."@);
    if let Some(time) = last_success {
        let t = decimal(time as nat);
        lemma_decimal_units(time as nat);
        lemma_units_add(a, t);
        lemma_units_add(a + t, b);
        lemma_units_add(a + t + b, t);
        lemma_units_add(a + t + b + t, c);
    }
}

proof fn lemma_page_lines_units(models: Seq<ModelView>, compact: bool)
    requires
        models.len() <= 10,
    ensures
        units(page_lines(models, compact)) <= 3590,
{
    let lines = models.map_values(|m: ModelView| line_of(m, compact));
    assert forall|i: int| 0 <= i < lines.len() implies units(#[trigger] lines[i]) <= 357 by {
        lemma_line_units(models[i], compact);
    }
    reveal_strlit("\n\n");
    lemma_units_narrow("\n\n"@);
    lemma_ten_joined_units(lines, "\n\n"@, 357);
}

proof fn lemma_description_units(last_success: Option<u64>, lines: Seq<char>)
    requires
        units(lines) <= 3590,
    ensures
        units(snapshot_description(last_success, lines)) <= 3900,
{
    let head =
        "Snapshot only; not live updating. Catalog freshness, not bot uptime or health.\n"@;
    let gap = "\n\n"@;
    let none = "No matching models."@;
    reveal_strlit(
        "Snapshot only; not live updating. Catalog freshness, not bot uptime or health.\n",
    );
    reveal_strlit("\n\n");
    reveal_strlit("No matching models.");
    lemma_units_bounds(head);
    lemma_units_bounds(gap);
    lemma_units_bounds(none);
    lemma_freshness_units(last_success);
    let told = freshness(last_success);
    let body = if lines.len() == 0 {
        none
    } else {
        lines
    };
    lemma_units_add(head, told);
    lemma_units_add(head + told, gap);
    lemma_units_add(head + told + gap, body);
}

proof fn lemma_count_text_units(total: nat, free: nat, matching: nat)
    requires
        total <= u64::MAX,
        free <= u64::MAX,
        matching <= u64::MAX,
    ensures
        1 <= units(count_text(total, free, matching)) <= 120,
{
    let a = " total · "@;
    let b = " free · "@;
    let c = " matching"@;
    reveal_strlit(" total · ");
    reveal_strlit(" free · ");
    reveal_strlit(" matching");
    lemma_units_bounds(a);
    lemma_units_bounds(b);
    lemma_units_bounds(c);
    lemma_decimal_units(total);
    lemma_decimal_units(free);
    lemma_decimal_units(matching);
    let t = decimal(total);
    let f = decimal(free);
    let m = decimal(matching);
    lemma_units_add(t, a);
    lemma_units_add(t + a, f);
    lemma_units_add(t + a + f, b);
    lemma_units_add(t + a + f + b, m);
    lemma_units_add(t + a + f + b + m, c);
}

proof fn lemma_filter_text_units(options: BrowseView)
    ensures
        1 <= units(filter_text(options)) <= 420,
{
    let a = "Scope: "@;
    let scope = if options.free_only {
        "Free only"@
    } else {
        "All models"@
    };
    let b = "\nSearch: "@;
    let search = shown_text(options.search, 240);
    let c = "\nMinimum context: "@;
    let context = decimal(options.min_context as nat);
    let d = " tokens\nCompact: "@;
    let flag = if options.compact {
        "true"@
    } else {
        "false"@
    };
    reveal_strlit("Scope: ");
    reveal_strlit("Free only");
    reveal_strlit("All models");
    reveal_strlit("\nSearch: ");
    reveal_strlit("\nMinimum context: ");
    reveal_strlit(" tokens\nCompact: ");
    reveal_strlit("true");
    reveal_strlit("false");
    lemma_units_bounds(a);
    lemma_units_bounds(scope);
    lemma_units_bounds(b);
    lemma_units_bounds(c);
    lemma_units_bounds(d);
    lemma_units_bounds(flag);
    lemma_shown_units(options.search, 240);
    lemma_decimal_units(options.min_context as nat);
    lemma_units_add(a, scope);
    lemma_units_add(a + scope, b);
    lemma_units_add(a + scope + b, search);
    lemma_units_add(a + scope + b + search, c);
    lemma_units_add(a + scope + b + search + c, context);
    lemma_units_add(a + scope + b + search + c + context, d);
    lemma_units_add(a + scope + b + search + c + context + d, flag);
}

proof fn lemma_page_text_units(page: nat, pages: nat, size: nat)
    requires
        page <= u64::MAX,
        pages <= u64::MAX,
        size <= u64::MAX,
    ensures
        1 <= units(page_text(page, pages, size)) <= 100,
{
    let a = "/"@;
    let b = " · "@;
    let c = " per page"@;
    reveal_strlit("/");
    reveal_strlit(" · ");
    reveal_strlit(" per page");
    lemma_units_bounds(a);
    lemma_units_bounds(b);
    lemma_units_bounds(c);
    lemma_decimal_units(page);
    lemma_decimal_units(pages);
    lemma_decimal_units(size);
    let p = decimal(page);
    let q = decimal(pages);
    let n = decimal(size);
    lemma_units_add(p, a);
    lemma_units_add(p + a, q);
    lemma_units_add(p + a + q, b);
    lemma_units_add(p + a + q + b, n);
    lemma_units_add(p + a + q + b + n, c);
}

proof fn lemma_poll_text_units(poll_seconds: u64)
    ensures
        1 <= units(poll_text(poll_seconds)) <= 140,
{
    let a = " seconds · run /status again to refresh this snapshot"@;
    reveal_strlit(" seconds · run /status again to refresh this snapshot");
    lemma_units_bounds(a);
    lemma_decimal_units(poll_seconds as nat);
    lemma_units_add(decimal(poll_seconds as nat), a);
}

proof fn lemma_free_count(catalog: Seq<(Seq<char>, ModelView)>)
    ensures
        free_count(catalog) <= catalog.len(),
    decreases catalog.len(),
{
    if catalog.len() > 0 {
        lemma_free_count(catalog.drop_last());
    }
}

/// The page that is shown is one that there is, and holds at most as many models as a page
/// may.
pub proof fn shown_page_exists(options: BrowseView, count: nat)
    ensures
        1 <= page_size(options) <= 10,
        1 <= page_shown(options, page_count(count, page_size(options))) <= page_count(
            count,
            page_size(options),
        ),
        page_count(count, page_size(options)) <= count || count == 0 && page_count(
            count,
            page_size(options),
        ) == 1,
{
    let size = page_size(options);
    if count > 0 {
        assert(0 <= (count - 1) / size as int <= count - 1) by (nonlinear_arith)
            requires
                size >= 1,
                count > 0,
        ;
    }
}

/// Each model stands on exactly one page.
pub proof fn each_match_stands_on_one_page(count: nat, size: nat, i: int, page: nat)
    requires
        size >= 1,
        0 <= i < count,
        1 <= page,
    ensures
        1 <= i / size as int + 1 <= page_count(count, size),
        page_start(page, size) <= i < page_end(page, size, count) <==> page == i / size as int + 1,
{
    let own = i / size as int;
    assert(own * size <= i < own * size + size) by (nonlinear_arith)
        requires
            own == i / size as int,
            size >= 1,
    ;
    assert(own >= 0) by (nonlinear_arith)
        requires
            own == i / size as int,
            size >= 1,
            i >= 0,
    ;
    assert(own <= (count - 1) / size as int) by (nonlinear_arith)
        requires
            own == i / size as int,
            size >= 1,
            i <= count - 1,
    ;
    if page == own + 1 {
        assert(page * size == own * size + size) by (nonlinear_arith)
            requires
                page == own + 1,
        ;
    } else if page < own + 1 {
        assert(page * size <= own * size) by (nonlinear_arith)
            requires
                page <= own,
                size >= 1,
        ;
    } else {
        assert((page - 1) * size >= own * size + size) by (nonlinear_arith)
            requires
                page - 1 >= own + 1,
                size >= 1,
        ;
    }
}

/// A page of at most ten models.
proof fn lemma_page_of_len(models: Seq<ModelView>, options: BrowseView)
    ensures
        page_of(
            models,
            page_shown(options, page_count(models.len(), page_size(options))),
            page_size(options),
        ).len() <= 10,
{
    let count = models.len();
    let size = page_size(options);
    shown_page_exists(options, count);
    let page = page_shown(options, page_count(count, size));
    assert((page - 1) * size >= 0) by (nonlinear_arith)
        requires
            page >= 1,
    ;
    assert(page * size == (page - 1) * size + size) by (nonlinear_arith);
    if count > 0 {
        each_match_stands_on_one_page(count, size, (count - 1) as int, page);
        let last = (count - 1) / size as int;
        assert((page - 1) * size <= last * size) by (nonlinear_arith)
            requires
                page - 1 <= last,
                size >= 1,
        ;
        assert(last * size <= count - 1) by (nonlinear_arith)
            requires
                last == (count - 1) / size as int,
                size >= 1,
        ;
    } else {
        assert(page == 1);
        assert((page - 1) * size == 0) by (nonlinear_arith)
            requires
                page == 1,
        ;
    }
}

/// Discord accepts every snapshot, whatever the catalog holds and the user asks for.
pub proof fn snapshots_are_acceptable(
    state: StateView,
    options: BrowseView,
    poll_seconds: u64,
    models: Seq<ModelView>,
)
    requires
        state.catalog.len() <= u64::MAX,
        models.len() <= u64::MAX,
    ensures
        acceptable(snapshot_of(state, options, poll_seconds, models)),
{
    let size = page_size(options);
    let pages = page_count(models.len(), size);
    let page = page_shown(options, pages);
    shown_page_exists(options, models.len());
    lemma_page_of_len(models, options);
    lemma_page_lines_units(page_of(models, page, size), options.compact);
    lemma_description_units(
        state.last_success,
        page_lines(page_of(models, page, size), options.compact),
    );
    lemma_free_count(state.catalog);
    lemma_count_text_units(state.catalog.len(), free_count(state.catalog), models.len());
    lemma_filter_text_units(options);
    lemma_page_text_units(page, pages, size);
    lemma_poll_text_units(poll_seconds);
    lemma_footer_units();
    lemma_shown_units("Catalog snapshot"@, 256);
    reveal_strlit("Catalog");
    reveal_strlit("Filters");
    reveal_strlit("Page");
    reveal_strlit("Poll interval");
    lemma_units_bounds("Catalog"@);
    lemma_units_bounds("Filters"@);
    lemma_units_bounds("Page"@);
    lemma_units_bounds("Poll interval"@);
    let e = snapshot_of(state, options, poll_seconds, models);
    let f = e.fields;
    let none = Seq::<FieldContents>::empty();
    lemma_field_units_push(none, f[0]);
    lemma_field_units_push(none.push(f[0]), f[1]);
    lemma_field_units_push(none.push(f[0]).push(f[1]), f[2]);
    lemma_field_units_push(none.push(f[0]).push(f[1]).push(f[2]), f[3]);
    assert(none.push(f[0]).push(f[1]).push(f[2]).push(f[3]) =~= f);
}

/// The models that are browsed are exactly those of the catalog that the options list.
pub proof fn browsed_models_are_the_listed_ones(
    catalog: Seq<(Seq<char>, ModelView)>,
    options: BrowseView,
    model: ModelView,
)
    ensures
        matching(catalog, options).contains(model) <==> listed(options, model) && exists|i: int|
            0 <= i < catalog.len() && (#[trigger] catalog[i]).1 == model,
    decreases catalog.len(),
{
    if catalog.len() > 0 {
        let front = catalog.drop_last();
        let earlier = matching(front, options);
        let all = matching(catalog, options);
        browsed_models_are_the_listed_ones(front, options, model);
        if all.contains(model) {
            let x = choose|x: int| 0 <= x < all.len() && all[x] == model;
            if x < earlier.len() {
                assert(earlier[x] == model);
                let i = choose|i: int| 0 <= i < front.len() && (#[trigger] front[i]).1 == model;
                assert(catalog[i].1 == model);
            } else {
                assert(catalog[catalog.len() - 1].1 == model);
            }
        }
        if listed(options, model) && exists|i: int|
            0 <= i < catalog.len() && (#[trigger] catalog[i]).1 == model {
            let i = choose|i: int| 0 <= i < catalog.len() && (#[trigger] catalog[i]).1 == model;
            if i < front.len() {
                assert(front[i].1 == model);
                let x = choose|x: int| 0 <= x < earlier.len() && earlier[x] == model;
                assert(all[x] == model);
            } else {
                assert(all[earlier.len() as int] == model);
            }
        }
    }
}

/// Without a search every eligible model is listed.
pub proof fn empty_search_lists_the_eligible(options: BrowseView, model: ModelView)
    requires
        options.search.len() == 0,
    ensures
        listed(options, model) == eligible(options, model),
{
    lemma_empty_occurs(lowered(model.name), lowered(options.search));
}

/// Asking for less context, for paid models too, or without a search, loses no model.
pub proof fn looser_browsing_lists_no_less(
    options: BrowseView,
    min_context: u32,
    free_only: bool,
    search: Seq<char>,
    model: ModelView,
)
    requires
        listed(options, model),
        min_context <= options.min_context,
        free_only ==> options.free_only,
        search == options.search || search.len() == 0,
    ensures
        listed(BrowseView { min_context, free_only, search, ..options }, model),
{
    let looser = BrowseView { min_context, free_only, search, ..options };
    if search.len() == 0 {
        empty_search_lists_the_eligible(looser, model);
    }
}

/// Joined texts stand one after the other with the separator between each two, and nothing
/// before the first or after the last.
pub proof fn joined_texts_are_separated(
    a: Seq<Seq<char>>,
    b: Seq<Seq<char>>,
    text: Seq<char>,
    separator: Seq<char>,
)
    ensures
        joined(Seq::empty(), separator) == Seq::<char>::empty(),
        joined(seq![text], separator) == text,
        a.len() > 0 && b.len() > 0 ==> joined(a + b, separator) == joined(a, separator) + separator
            + joined(b, separator),
    decreases b.len(),
{
    if a.len() > 0 && b.len() > 0 {
        let all = a + b;
        assert(all.last() == b.last());
        if b.len() == 1 {
            assert(all.drop_last() =~= a);
        } else {
            assert(all.drop_last() =~= a + b.drop_last());
            joined_texts_are_separated(a, b.drop_last(), text, separator);
            assert(joined(all, separator) =~= joined(a, separator) + separator + joined(
                b,
                separator,
            ));
        }
    }
}

proof fn lemma_joined_nonempty(texts: Seq<Seq<char>>, separator: Seq<char>)
    requires
        texts.len() > 0,
        texts[0].len() > 0,
    ensures
        joined(texts, separator).len() > 0,
    decreases texts.len(),
{
    if texts.len() > 1 {
        assert(texts.drop_last()[0] == texts[0]);
        lemma_joined_nonempty(texts.drop_last(), separator);
    }
}

/// A compact line tells a model's id, its context and whether it is free; another has the name
/// in bold above that.
pub proof fn lines_tell_id_context_and_price(model: ModelView)
    ensures
        line_of(model, true) == shown_text(model.id, 220) + " · "@ + decimal(
            model.context_length as nat,
        ) + " tokens · "@ + if free(model) {
            "Free"@
        } else {
            "Paid / unknown"@
        },
        line_of(model, false) == "**"@ + shown_text(model.name, 85) + "**\n"@ + line_of(model, true),
{
}

/// The prices are listed one to a line, each with its name, in their order and up to the tenth;
/// a model without prices has none to list.
pub proof fn prices_are_listed_up_to_the_tenth(model: ModelView, compact: bool) -> (lines: Seq<
    Seq<char>,
>)
    ensures
        model.pricing.len() <= 10 ==> lines.len() == model.pricing.len(),
        model.pricing.len() > 10 ==> lines.len() == 10,
        forall|i: int|
            0 <= i < lines.len() ==> #[trigger] lines[i] == shown_text(model.pricing[i].0, 40)
                + ": "@ + shown_text(model.pricing[i].1, 45),
        details_of(model, compact, true).fields.len() == 4,
        details_of(model, compact, true).fields[3].name
            == "Raw USD prices (prompt/completion per token)"@,
        !details_of(model, compact, true).fields[3].inline,
        model.pricing.len() > 0 ==> details_of(model, compact, true).fields[3].value == joined(
            lines,
            "\n"@,
        ),
        model.pricing.len() == 0 ==> details_of(model, compact, true).fields[3].value
            == "Unavailable"@,
{
    let pricing = model.pricing;
    let count: nat = if pricing.len() > 10 {
        10
    } else {
        pricing.len()
    };
    let lines = Seq::new(count, |i: int| price_line(pricing[i]));
    if pricing.len() < 10 {
        assert(lines =~= pricing.map_values(|p: (Seq<char>, Seq<char>)| price_line(p)));
    } else {
        assert(lines =~= pricing.take(10).map_values(|p: (Seq<char>, Seq<char>)| price_line(p)));
    }
    assert(price_list(pricing) == joined(lines, "\n"@));
    if pricing.len() > 0 {
        shown_text_is_not_empty(pricing[0].0, 40);
        assert(lines[0] == price_line(pricing[0]));
        lemma_joined_nonempty(lines, "\n"@);
    }
    lines
}

/// Every embed has its title, the colour and the footer of the bot, and nothing else until
/// something is added.
pub proof fn embeds_have_title_colour_and_footer(title: Seq<char>)
    ensures
        titled(title).title == Some(shown_text(title, 256)),
        titled(title).colour == Some(0x8367efu32),
        titled(title).footer == Some(
            FooterContents {
                text: "Model Radar • Catalog prices, not unlimited access • Limits may apply"@,
                without_icon: true,
            },
        ),
        titled(title).kind == Some("rich"@),
        titled(title).description is None,
        titled(title).fields.len() == 0,
        titled(title).plain,
{
}

/// The details of a model show its name, id, context and whether it is free, and its
/// description unless they are compact, on an embed like every other.
pub proof fn details_tell_of_the_model(model: ModelView, compact: bool, show_pricing: bool)
    ensures
        details_of(model, compact, show_pricing).description == if compact {
            None
        } else {
            Some(shown_text(model.description, 2000))
        },
        details_of(model, compact, show_pricing).fields.take(3) == seq![
            FieldContents {
                name: "Model ID"@,
                value: shown_text(model.id, 1024),
                inline: false,
            },
            FieldContents {
                name: "Context"@,
                value: decimal(model.context_length as nat) + " tokens"@,
                inline: true,
            },
            FieldContents {
                name: "Free catalog pricing"@,
                value: if free(model) {
                    "Yes"@
                } else {
                    "No / unknown"@
                },
                inline: true,
            },
        ],
        details_of(model, compact, show_pricing) == (EmbedContents {
            description: details_of(model, compact, show_pricing).description,
            fields: details_of(model, compact, show_pricing).fields,
            ..titled(model.name)
        }),
{
    assert(details_of(model, compact, show_pricing).fields.take(3) =~= detail_fields(model));
}

/// A model is eligible exactly if it is free or paid models are asked for too, and its context
/// is large enough; a query is looked for in the name and in the id.
pub proof fn eligible_models_pass_both_filters(
    options: BrowseView,
    model: ModelView,
    query: Seq<char>,
    name: Seq<char>,
    id: Seq<char>,
)
    ensures
        eligible(options, model) <==> (!options.free_only || free(model)) && options.min_context
            <= model.context_length,
        query_occurs(query, name, id) <==> occurs_in(name, query) || occurs_in(id, query),
{
}

/// An eligible model of the catalog is browsed wherever the search stands in its name or in its
/// id, whatever the case.
pub proof fn models_are_found_by_name_and_by_id(
    catalog: Seq<(Seq<char>, ModelView)>,
    options: BrowseView,
    i: int,
    before: Seq<char>,
    after: Seq<char>,
)
    requires
        0 <= i < catalog.len(),
        options.free_only ==> free(catalog[i].1),
        options.min_context <= catalog[i].1.context_length,
        ({
            ||| lowered(catalog[i].1.name) == before + lowered(options.search) + after
            ||| lowered(catalog[i].1.id) == before + lowered(options.search) + after
        }),
    ensures
        matching(catalog, options).contains(catalog[i].1),
{
    let model = catalog[i].1;
    parts_occur(before, lowered(options.search), after);
    assert(listed(options, model));
    assert(catalog[i].1 == model);
    browsed_models_are_the_listed_ones(catalog, options, model);
}

/// A model is browsed only if the catalog has it, it passes the filters, and the search stands
/// in its name or in its id.
pub proof fn browsed_models_hold_the_search(
    catalog: Seq<(Seq<char>, ModelView)>,
    options: BrowseView,
    model: ModelView,
) -> (around: (Seq<char>, Seq<char>))
    requires
        matching(catalog, options).contains(model),
    ensures
        exists|i: int| 0 <= i < catalog.len() && (#[trigger] catalog[i]).1 == model,
        options.free_only ==> free(model),
        options.min_context <= model.context_length,
        ({
            ||| lowered(model.name) == around.0 + lowered(options.search) + around.1
            ||| lowered(model.id) == around.0 + lowered(options.search) + around.1
        }),
{
    browsed_models_are_the_listed_ones(catalog, options, model);
    let query = lowered(options.search);
    if occurs_in(lowered(model.name), query) {
        what_occurs_is_a_part(lowered(model.name), query)
    } else {
        what_occurs_is_a_part(lowered(model.id), query)
    }
}

/// Browsing goes through the catalog entry by entry: each that is listed comes once, in order.
pub proof fn browsing_keeps_the_order(
    a: Seq<(Seq<char>, ModelView)>,
    b: Seq<(Seq<char>, ModelView)>,
    entry: (Seq<char>, ModelView),
    options: BrowseView,
)
    ensures
        matching(a + b, options) == matching(a, options) + matching(b, options),
        matching(seq![entry], options) == if listed(options, entry.1) {
            seq![entry.1]
        } else {
            Seq::<ModelView>::empty()
        },
    decreases b.len(),
{
    let nothing = Seq::<(Seq<char>, ModelView)>::empty();
    assert(seq![entry].drop_last() =~= nothing);
    assert(matching(nothing, options) =~= Seq::<ModelView>::empty());
    assert(matching(seq![entry], options) =~= if listed(options, entry.1) {
        seq![entry.1]
    } else {
        Seq::<ModelView>::empty()
    });
    if b.len() == 0 {
        assert(a + b =~= a);
    } else {
        assert((a + b).drop_last() =~= a + b.drop_last());
        browsing_keeps_the_order(a, b.drop_last(), entry, options);
    }
    assert(matching(a + b, options) =~= matching(a, options) + matching(b, options));
}

/// A page holds as many models as asked for, from one to ten; there are as many pages as the
/// models take, and one where there are none; the page shown is the one asked for, or else the
/// first or the last.
pub proof fn pages_are_sized_counted_and_chosen(options: BrowseView, count: nat)
    ensures
        1 <= options.page_size <= 10 ==> page_size(options) == options.page_size,
        options.page_size < 1 ==> page_size(options) == 1,
        options.page_size > 10 ==> page_size(options) == 10,
        count == 0 ==> page_count(count, page_size(options)) == 1,
        count > 0 ==> (page_count(count, page_size(options)) - 1) * page_size(options) < count
            <= page_count(count, page_size(options)) * page_size(options),
        1 <= options.page <= page_count(count, page_size(options)) ==> page_shown(
            options,
            page_count(count, page_size(options)),
        ) == options.page,
        options.page < 1 ==> page_shown(options, page_count(count, page_size(options))) == 1,
        options.page > page_count(count, page_size(options)) ==> page_shown(
            options,
            page_count(count, page_size(options)),
        ) == page_count(count, page_size(options)),
{
    let size = page_size(options);
    if count > 0 {
        let last = (count - 1) / size as int;
        assert(last * size < count <= (last + 1) * size) by (nonlinear_arith)
            requires
                last == (count - 1) / size as int,
                size >= 1,
                count > 0,
        ;
        assert(last >= 0) by (nonlinear_arith)
            requires
                last == (count - 1) / size as int,
                size >= 1,
                count > 0,
        ;
        assert(page_count(count, size) == last + 1);
    }
}

/// A page starts after those before it, and holds the models that follow there: as many as a
/// page may, or what is left.
pub proof fn pages_hold_what_follows(models: Seq<ModelView>, page: nat, size: nat)
    requires
        size >= 1,
        page >= 1,
        (page - 1) * size <= models.len(),
    ensures
        page_start(page, size) == (page - 1) * size,
        page_end(page, size, models.len()) == if models.len() - (page - 1) * size < size {
            models.len() as int
        } else {
            (page - 1) * size + size
        },
        page_of(models, page, size).len() == if models.len() - (page - 1) * size < size {
            models.len() - (page - 1) * size
        } else {
            size as int
        },
        forall|i: int|
            0 <= i < page_of(models, page, size).len() ==> #[trigger] page_of(models, page, size)[i]
                == models[(page - 1) * size + i],
{
    assert(page * size == (page - 1) * size + size) by (nonlinear_arith);
    assert((page - 1) * size >= 0) by (nonlinear_arith)
        requires
            page >= 1,
    ;
}

/// Free models are counted one by one.
pub proof fn free_models_are_counted(
    a: Seq<(Seq<char>, ModelView)>,
    b: Seq<(Seq<char>, ModelView)>,
    entry: (Seq<char>, ModelView),
)
    ensures
        free_count(a + b) == free_count(a) + free_count(b),
        free_count(seq![entry]) == if free(entry.1) {
            1nat
        } else {
            0
        },
    decreases b.len(),
{
    assert(seq![entry].drop_last() =~= Seq::<(Seq<char>, ModelView)>::empty());
    assert(free_count(seq![entry].drop_last()) == 0);
    if b.len() == 0 {
        assert(a + b =~= a);
    } else {
        assert((a + b).drop_last() =~= a + b.drop_last());
        free_models_are_counted(a, b.drop_last(), entry);
    }
}

/// A snapshot shows the lines of the page, or that nothing matches, after how fresh the catalog
/// is; and in its fields the counts, the filters, the page and the interval.
pub proof fn snapshots_show_the_page_and_what_was_asked(
    state: StateView,
    options: BrowseView,
    poll_seconds: u64,
    models: Seq<ModelView>,
) -> (lines: Seq<Seq<char>>)
    ensures
        ({
            let size = page_size(options);
            let pages = page_count(models.len(), size);
            let page = page_shown(options, pages);
            let shown = page_of(models, page, size);
            let snapshot = snapshot_of(state, options, poll_seconds, models);
            &&& lines.len() == shown.len()
            &&& forall|i: int|
                0 <= i < lines.len() ==> #[trigger] lines[i] == line_of(shown[i], options.compact)
            &&& snapshot.description == Some(
                "Snapshot only; not live updating. Catalog freshness, not bot uptime or health.\n"@
                    + (match state.last_success {
                    Some(time) => "Last successful catalog fetch: <t:"@ + decimal(time as nat)
                        + ":f> (<t:"@ + decimal(time as nat) + ":R>)."@,
                    None => "No successful catalog fetch recorded."@,
                }) + "\n\n"@ + (if models.len() == 0 {
                    "No matching models."@
                } else {
                    joined(lines, "\n\n"@)
                }),
            )
            &&& snapshot.fields == seq![
                FieldContents {
                    name: "Catalog"@,
                    value: decimal(state.catalog.len()) + " total · "@ + decimal(
                        free_count(state.catalog),
                    ) + " free · "@ + decimal(models.len()) + " matching"@,
                    inline: false,
                },
                FieldContents {
                    name: "Filters"@,
                    value: "Scope: "@ + (if options.free_only {
                        "Free only"@
                    } else {
                        "All models"@
                    }) + "\nSearch: "@ + shown_text(options.search, 240)
                        + "\nMinimum context: "@ + decimal(options.min_context as nat)
                        + " tokens\nCompact: "@ + (if options.compact {
                        "true"@
                    } else {
                        "false"@
                    }),
                    inline: false,
                },
                FieldContents {
                    name: "Page"@,
                    value: decimal(page) + "/"@ + decimal(pages) + " · "@ + decimal(size)
                        + " per page"@,
                    inline: true,
                },
                FieldContents {
                    name: "Poll interval"@,
                    value: decimal(poll_seconds as nat)
                        + " seconds · run /status again to refresh this snapshot"@,
                    inline: false,
                },
            ]
            &&& snapshot == (EmbedContents {
                description: snapshot.description,
                fields: snapshot.fields,
                ..titled("Catalog snapshot"@)
            })
        }),
{
    let size = page_size(options);
    let pages = page_count(models.len(), size);
    let page = page_shown(options, pages);
    let shown = page_of(models, page, size);
    let lines = shown.map_values(|m: ModelView| line_of(m, options.compact));
    shown_page_exists(options, models.len());
    pages_are_sized_counted_and_chosen(options, models.len());
    assert((page - 1) * size <= (pages - 1) * size) by (nonlinear_arith)
        requires
            page <= pages,
            size >= 1,
    ;
    if models.len() > 0 {
        pages_hold_what_follows(models, page, size);
        lemma_line_units(shown[0], options.compact);
        lemma_units_bounds(lines[0]);
        lemma_joined_nonempty(lines, "\n\n"@);
    } else {
        assert(page == 1);
        assert((page - 1) * size == 0) by (nonlinear_arith)
            requires
                page == 1,
        ;
        pages_hold_what_follows(models, page, size);
        assert(lines =~= Seq::<Seq<char>>::empty());
    }
    lines
}

/// What a user asks for is seen whole, and models behind references one by one.
pub proof fn browsing_is_seen_whole(options: Browse, models: Seq<&Model>)
    ensures
        options@.free_only == options.free_only,
        options@.search == options.search@,
        options@.min_context == options.min_context,
        options@.page == options.page,
        options@.page_size == options.page_size,
        options@.compact == options.compact,
        referents(models).len() == models.len(),
        forall|i: int| 0 <= i < models.len() ==> #[trigger] referents(models)[i] == models[i]@,
{
}

} // verus!
