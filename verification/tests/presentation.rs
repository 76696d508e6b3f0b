use std::collections::BTreeMap;

use model_radar::catalog::Model;
use model_radar::ordered_map::OrderedMap;
use model_radar::presentation::{
    embed, model_details, model_line, no_mentions, render_snapshot, snapshot, text, Browse,
};
use model_radar::store::State;
use serde_json::Value;

fn assert_embed_bounds(value: &Value) {
    let units = |value: &Value| value.as_str().unwrap_or_default().encode_utf16().count();
    assert!(units(&value["title"]) <= 256);
    assert!(units(&value["description"]) <= 4096);
    assert!(units(&value["footer"]["text"]) <= 2048);
    let mut total =
        units(&value["title"]) + units(&value["description"]) + units(&value["footer"]["text"]);
    if let Some(fields) = value["fields"].as_array() {
        assert!(fields.len() <= 25);
        for field in fields {
            assert!((1..=256).contains(&units(&field["name"])));
            assert!((1..=1024).contains(&units(&field["value"])));
            total += units(&field["name"]) + units(&field["value"]);
        }
    }
    assert!(total <= 6000, "embed has {total} UTF-16 units");
}

fn model(id: &str, free: bool, context: u64) -> Model {
    let mut pricing = OrderedMap::new();
    pricing.insert("prompt".into(), if free { "0" } else { "1" }.into());
    pricing.insert("completion".into(), "0".into());
    Model {
        id: id.into(),
        name: "Example".into(),
        description: "Description".into(),
        context_length: context,
        pricing,
    }
}

fn state_of(catalog: OrderedMap<Model>, last_success: Option<u64>) -> State {
    State {
        initialized: false,
        catalog,
        subscriptions: BTreeMap::new(),
        last_success,
    }
}

fn catalog_of(models: Vec<Model>) -> OrderedMap<Model> {
    let mut catalog = OrderedMap::new();
    for model in models {
        catalog.insert(model.id.clone(), model);
    }
    catalog
}

#[test]
fn markdown_escaping_preserves_id_characters() {
    assert_eq!(
        text("vendor/model_under`tick", 1024),
        "vendor/model\\_under\\`tick"
    );
    assert_eq!(text("a\\b[*]", 1024), "a\\\\b\\[\\*\\]");
    let payload = serde_json::to_value(model_details(
        &model("vendor/model_under`tick", true, 8192),
        false,
        true,
    ))
    .unwrap();
    assert_eq!(payload["fields"][0]["value"], "vendor/model\\_under\\`tick");
    assert_embed_bounds(&payload);
}

#[test]
fn unicode_lengths_and_all_payloads_are_bounded() {
    let large = "\u{1d11e}_`\\[]".repeat(2000);
    for limit in [0, 1, 2, 3, 40, 256, 1024, 2000] {
        assert!(text(&large, limit).encode_utf16().count() <= limit);
    }
    let mut example = model(&large, false, u64::MAX);
    example.name = large.clone();
    example.description = large.clone();
    example.pricing = OrderedMap::new();
    for index in 0..30 {
        example
            .pricing
            .insert(format!("{index}{large}"), large.clone());
    }
    for compact in [false, true] {
        for show_pricing in [false, true] {
            let value =
                serde_json::to_value(model_details(&example, compact, show_pricing)).unwrap();
            assert_embed_bounds(&value);
            assert_eq!(
                value["fields"].as_array().unwrap().len(),
                if show_pricing { 4 } else { 3 }
            );
            assert_eq!(value.get("description").is_none(), compact);
        }
        let mut catalog = OrderedMap::new();
        for index in 0..30 {
            catalog.insert(index.to_string(), example.clone());
        }
        let state = state_of(catalog, Some(u64::MAX));
        for page_size in [0, 1, 10, u32::MAX] {
            let options = Browse {
                free_only: false,
                compact,
                page_size,
                ..Default::default()
            };
            assert_embed_bounds(&serde_json::to_value(snapshot(&state, &options, 86400)).unwrap());
        }
    }
}

#[test]
fn snapshot_filters_pagination_and_freshness() {
    let state = state_of(
        catalog_of(vec![
            model("a/free", true, 100),
            model("b/paid", false, 200),
            model("c/free", true, 50),
        ]),
        Some(123),
    );
    let value = serde_json::to_value(snapshot(&state, &Browse::default(), 60)).unwrap();
    let description = value["description"].as_str().unwrap();
    assert!(description.contains("not live updating"));
    assert!(description.contains("not bot uptime or health"));
    assert!(description.contains("<t:123:f>"));
    assert!(!description.contains("b/paid"));
    assert!(description.contains("a/free") && description.contains("c/free"));
    let options = Browse {
        free_only: false,
        search: "PAID".into(),
        min_context: 200,
        page: u32::MAX,
        page_size: 1,
        compact: true,
    };
    let value = serde_json::to_value(snapshot(&state, &options, 75)).unwrap();
    assert!(value["description"].as_str().unwrap().contains("b/paid"));
    assert_eq!(value["fields"][2]["value"], "1/1 · 1 per page");
    assert!(value["fields"][3]["value"]
        .as_str()
        .unwrap()
        .contains("75 seconds"));
    let options = Browse {
        min_context: 201,
        ..options
    };
    let value = serde_json::to_value(snapshot(&state, &options, 600)).unwrap();
    assert!(value["description"]
        .as_str()
        .unwrap()
        .contains("No matching models."));
    let value = serde_json::to_value(snapshot(&State::default(), &Browse::default(), 600)).unwrap();
    assert!(value["description"]
        .as_str()
        .unwrap()
        .contains("No successful catalog fetch"));
    let options = Browse {
        free_only: false,
        page_size: 1,
        page: 2,
        ..Default::default()
    };
    let value = serde_json::to_value(snapshot(&state, &options, 600)).unwrap();
    assert!(value["description"].as_str().unwrap().contains("b/paid"));
    assert!(!value["description"].as_str().unwrap().contains("a/free"));
    assert_eq!(value["fields"][2]["value"], "2/3 · 1 per page");
}

#[test]
fn nobody_is_mentioned() {
    let value = serde_json::to_value(no_mentions()).unwrap();
    assert_eq!(
        value.to_string(),
        r#"{"parse":[],"replied_user":false,"roles":[],"users":[]}"#
    );
}

#[test]
fn embeds_have_title_colour_and_footer() {
    let value = serde_json::to_value(embed("a*b")).unwrap();
    assert_eq!(
        value.to_string(),
        "{\"color\":8611823,\"footer\":{\"text\":\"Model Radar • Catalog prices, not unlimited \
         access • Limits may apply\"},\"title\":\"a\\\\*b\",\"type\":\"rich\"}"
    );
}

#[test]
fn text_is_cut_cleaned_and_never_blank() {
    assert_eq!(text("abc", 0), "");
    assert_eq!(text("abc", 1), "…");
    assert_eq!(text("abc", 3), "ab…");
    assert_eq!(text("abc", 4), "abc");
    assert_eq!(text("a_c", 4), "a\\_…");
    assert_eq!(text("a_c", 3), "a…");
    assert_eq!(text("\u{1d11e}x", 2), "…");
    assert_eq!(text("\u{1d11e}x", 3), "\u{1d11e}…");
    assert_eq!(text("", 5), "—");
    assert_eq!(text("\u{7}\u{9b}\r", 5), "—");
    assert_eq!(text("a\u{0}\nb\t", 10), "a\nb");
    assert_eq!(text("\\`*_~[]<>|#-", 100), "\\\\\\`\\*\\_\\~\\[\\]\\<\\>\\|\\#\\-");
}

#[test]
fn lines_show_name_id_context_and_prices() {
    assert_eq!(
        model_line(&model("v/m-1", true, 8192), false),
        "**Example**\nv/m\\-1 · 8192 tokens · Free"
    );
    assert_eq!(
        model_line(&model("v/m", false, u64::MAX), true),
        "v/m · 18446744073709551615 tokens · Paid / unknown"
    );
}

#[test]
fn details_list_the_first_ten_prices_in_order() {
    let mut example = model("v/m", false, 4096);
    for index in 0..12 {
        example
            .pricing
            .insert(format!("k{index:02}"), index.to_string());
    }
    let value = serde_json::to_value(model_details(&example, false, true)).unwrap();
    assert_eq!(value["title"], "Example");
    assert_eq!(value["description"], "Description");
    assert_eq!(value["fields"][1]["name"], "Context");
    assert_eq!(value["fields"][1]["value"], "4096 tokens");
    assert_eq!(value["fields"][1]["inline"], true);
    assert_eq!(value["fields"][2]["value"], "No / unknown");
    let price_field = &value["fields"][3];
    assert_eq!(
        price_field["name"],
        "Raw USD prices (prompt/completion per token)"
    );
    assert_eq!(
        price_field["value"],
        "completion: 0\nk00: 0\nk01: 1\nk02: 2\nk03: 3\nk04: 4\nk05: 5\nk06: 6\nk07: 7\nk08: 8"
    );
    assert_eq!(price_field["inline"], false);
    example.pricing = OrderedMap::new();
    let value = serde_json::to_value(model_details(&example, true, true)).unwrap();
    assert_eq!(value["fields"][3]["value"], "Unavailable");
    let free = serde_json::to_value(model_details(&model("f", true, 1), true, false)).unwrap();
    assert_eq!(free["fields"][2]["value"], "Yes");
}

#[test]
fn snapshot_tells_counts_filters_and_interval() {
    let state = state_of(
        catalog_of(vec![
            model("a", true, 100),
            model("b", false, 200),
            model("c", true, 50),
        ]),
        Some(123),
    );
    let options = Browse {
        free_only: false,
        search: "B".into(),
        min_context: 60,
        page: 0,
        page_size: 3,
        compact: true,
    };
    let value = serde_json::to_value(snapshot(&state, &options, 75)).unwrap();
    assert_eq!(value["title"], "Catalog snapshot");
    assert_eq!(
        value["description"],
        "Snapshot only; not live updating. Catalog freshness, not bot uptime or health.\n\
         Last successful catalog fetch: <t:123:f> (<t:123:R>).\n\n\
         b · 200 tokens · Paid / unknown"
    );
    let fields = &value["fields"];
    assert_eq!(fields[0]["name"], "Catalog");
    assert_eq!(fields[0]["value"], "3 total · 2 free · 1 matching");
    assert_eq!(
        fields[1]["value"],
        "Scope: All models\nSearch: B\nMinimum context: 60 tokens\nCompact: true"
    );
    assert_eq!(fields[2]["value"], "1/1 · 3 per page");
    assert_eq!(fields[2]["inline"], true);
    assert_eq!(fields[3]["name"], "Poll interval");
    assert_eq!(
        fields[3]["value"],
        "75 seconds · run /status again to refresh this snapshot"
    );
}

#[test]
fn pages_hold_every_match_once() {
    let models: Vec<Model> = (0..25)
        .map(|index| model(&format!("m{index:02}"), true, 1))
        .collect();
    let matches: Vec<&Model> = models.iter().collect();
    let state = state_of(OrderedMap::new(), None);
    let mut seen = Vec::new();
    for page in 1..=4 {
        let options = Browse {
            page,
            page_size: 7,
            compact: true,
            ..Default::default()
        };
        let place = options.paginate(matches.len());
        assert_eq!((place.number, place.of), (page as usize, 4));
        seen.extend(place.start..place.end);
        let value =
            serde_json::to_value(render_snapshot(&state, &options, 1, &matches)).unwrap();
        let description = value["description"].as_str().unwrap();
        assert_eq!(description.matches("tokens").count(), place.end - place.start);
        assert!(description.contains(&format!("m{:02}", place.start)));
    }
    assert_eq!(seen, (0..25).collect::<Vec<_>>());
    let beyond = Browse {
        page: 9,
        page_size: 7,
        ..Default::default()
    };
    assert_eq!(beyond.paginate(25).number, 4);
    assert_eq!(beyond.paginate(0).number, 1);
    assert_eq!(Browse::default().paginate(20).of, 2);
}

#[test]
fn browsing_selects_by_lowercase_name_or_id() {
    let catalog = catalog_of(vec![model("v/ÄX", true, 10), model("w/b", true, 10)]);
    let options = Browse {
        search: "äx".into(),
        ..Default::default()
    };
    let ids: Vec<&str> = options
        .select(&catalog)
        .iter()
        .map(|m| m.id.as_str())
        .collect();
    assert_eq!(ids, vec!["v/ÄX"]);
    let everything = Browse::default();
    assert_eq!(everything.select(&catalog).len(), 2);
    let nothing = Browse {
        search: "none".into(),
        ..Default::default()
    };
    assert!(nothing.select(&catalog).is_empty());
    let one = catalog.get("w/b").unwrap();
    assert!(options.lists(one, "b", "example", "w/b"));
    assert!(!options.lists(one, "B", "example", "w/b"));
}
