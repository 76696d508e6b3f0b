use model_radar::catalog::{
    changes, deserialize_pricing, parse_catalog, validate, CatalogError, Model, PricingError,
    RawPrice, ResponseBody, MAX_RESPONSE_BYTES,
};
use model_radar::ordered_map::OrderedMap;
use serde_json::Value;

fn prices(pricing: &[(&str, &str)]) -> OrderedMap<String> {
    let mut map = OrderedMap::new();
    for (key, value) in pricing {
        map.insert(key.to_string(), value.to_string());
    }
    map
}

fn model(id: &str, pricing: &[(&str, &str)]) -> Model {
    Model {
        id: id.to_string(),
        name: id.to_string(),
        description: String::new(),
        context_length: 4096,
        pricing: prices(pricing),
    }
}

fn map(models: Vec<Model>) -> OrderedMap<Model> {
    let mut result = OrderedMap::new();
    for model in models {
        result.insert(model.id.clone(), model);
    }
    result
}

fn decode_pricing(value: &Value) -> Result<OrderedMap<String>, String> {
    let mut raw = OrderedMap::new();
    for (key, price) in value.as_object().ok_or("pricing is no object")? {
        let price = match price {
            Value::String(text) => RawPrice::Text(text.clone()),
            Value::Array(items) => RawPrice::Array(items.len()),
            _ => RawPrice::Other,
        };
        raw.insert(key.clone(), price);
    }
    deserialize_pricing(&raw).map_err(|error| error.message())
}

fn decode_model(value: &Value) -> Result<Model, String> {
    let text = |name: &str| -> Result<Option<String>, String> {
        match value.get(name) {
            None => Ok(None),
            Some(Value::String(text)) => Ok(Some(text.clone())),
            Some(_) => Err(format!("{name} is no string")),
        }
    };
    Ok(Model {
        id: text("id")?.ok_or("missing id")?,
        name: text("name")?.ok_or("missing name")?,
        description: text("description")?.unwrap_or_default(),
        context_length: match value.get("context_length") {
            None => 0,
            Some(length) => length.as_u64().ok_or("context_length is no u64")?,
        },
        pricing: match value.get("pricing") {
            None => OrderedMap::new(),
            Some(pricing) => decode_pricing(pricing)?,
        },
    })
}

fn encode_model(model: &Model) -> Value {
    let mut pricing = serde_json::Map::new();
    for i in 0..model.pricing.len() {
        let price = Value::from(model.pricing.value(i).as_str());
        pricing.insert(model.pricing.key(i).clone(), price);
    }
    let mut fields = serde_json::Map::new();
    fields.insert("id".to_string(), Value::from(model.id.as_str()));
    fields.insert("name".to_string(), Value::from(model.name.as_str()));
    fields.insert(
        "description".to_string(),
        Value::from(model.description.as_str()),
    );
    fields.insert(
        "context_length".to_string(),
        Value::from(model.context_length),
    );
    fields.insert("pricing".to_string(), Value::Object(pricing));
    Value::Object(fields)
}

fn read_catalog(bytes: &[u8]) -> Result<OrderedMap<Model>, String> {
    let response: Value = serde_json::from_slice(bytes).map_err(|error| error.to_string())?;
    let data = response
        .get("data")
        .and_then(Value::as_array)
        .ok_or("data is no array")?
        .iter()
        .map(decode_model)
        .collect::<Result<Vec<_>, _>>()?;
    parse_catalog(data).map_err(|error| error.message())
}

#[test]
fn free_requires_exact_decimal_zero() {
    assert!(model("a", &[("prompt", "0"), ("completion", "0")]).is_free());
    assert!(model("a", &[("prompt", "0.0"), ("completion", "-0")]).is_free());
    assert!(model("a", &[("prompt", "+0.00000"), ("completion", "0")]).is_free());
    assert!(!model(
        "a",
        &[("prompt", "0.00000000000000000001"), ("completion", "0")]
    )
    .is_free());
    assert!(!model("a", &[("prompt", "1e-9"), ("completion", "0")]).is_free());
    assert!(!model("a", &[("prompt", ""), ("completion", "0")]).is_free());
    assert!(!model("a", &[("prompt", "abc"), ("completion", "0")]).is_free());
    assert!(!model(
        "a",
        &[("prompt", "0"), ("completion", "0"), ("request", "0.1")]
    )
    .is_free());
    assert!(!model("a", &[]).is_free());
}

#[test]
fn decimal_zero_edge_cases() {
    for value in ["0", "00", "-0", "+0.00", "0e-9999", "0E+9999", ".0", "0."] {
        assert!(
            model("a", &[("prompt", value), ("completion", value)]).is_free(),
            "{value}"
        );
    }
    for value in [
        "1e-9999", "-1e-9999", "NaN", "inf", "-1", ".", "+", "-", "", "0e", "0e+", "0e1.0",
        "0e0e0", "0..0", "--0", "0x0", " 0", "0 ", "０",
    ] {
        assert!(
            !model("a", &[("prompt", value), ("completion", "0")]).is_free(),
            "{value}"
        );
        assert!(
            !model("a", &[("prompt", "0"), ("completion", value)]).is_free(),
            "{value}"
        );
        assert!(
            !model(
                "a",
                &[("prompt", "0"), ("completion", "0"), ("unknown", value)]
            )
            .is_free(),
            "{value}"
        );
    }
    let tiny = format!("0.{}1", "0".repeat(400));
    assert!(!model("a", &[("prompt", &tiny), ("completion", "0")]).is_free());
    assert!(!model("a", &[("prompt", "0")]).is_free());
    assert!(!model("a", &[("completion", "0")]).is_free());
    assert!(model(
        "a",
        &[("prompt", "0"), ("completion", "0"), ("unknown", "0.0")]
    )
    .is_free());
}

#[test]
fn changes_detects_new_and_paid_to_free() {
    let prev = map(vec![
        model("a", &[("prompt", "1"), ("completion", "1")]),
        model("b", &[("prompt", "0"), ("completion", "0")]),
    ]);
    let cur = map(vec![
        model("a", &[("prompt", "0"), ("completion", "0")]),
        model("b", &[("prompt", "0"), ("completion", "0")]),
        model("c", &[("prompt", "0"), ("completion", "0")]),
        model("d", &[("prompt", "2"), ("completion", "3")]),
    ]);
    let events = changes(&prev, &cur);
    let kinds: Vec<&str> = events.iter().map(|e| e.kind.as_str()).collect();
    assert_eq!(kinds, vec!["paid_to_free", "new", "new"]);
    assert_eq!(events[0].model.id, "a");
    assert_eq!(events[1].model.id, "c");
    assert_eq!(events[2].model.id, "d");
    assert!(!events[2].model.is_free());
}

#[test]
fn changes_ignores_removals_and_unchanged() {
    let prev = map(vec![model("a", &[("prompt", "0"), ("completion", "0")])]);
    let cur = OrderedMap::new();
    assert!(changes(&prev, &cur).is_empty());
    assert_eq!(changes(&cur, &prev).len(), 1);
    assert!(changes(&prev, &prev).is_empty());
    let paid = map(vec![model("a", &[("prompt", "1"), ("completion", "1")])]);
    assert!(changes(&prev, &paid).is_empty());
    assert!(changes(&paid, &paid).is_empty());
}

#[test]
fn parse_rejects_empty() {
    assert!(read_catalog(b"{\"data\":[]}").is_err());
    assert!(read_catalog(b"{}").is_err());
}

#[test]
fn parse_rejects_malformed() {
    for body in [
        "not json",
        r#"{"data":null}"#,
        r#"{"data":{}}"#,
        r#"{"data":[{"id":"","name":"A"}]}"#,
        r#"{"data":[{"id":"  ","name":"A"}]}"#,
        r#"{"data":[{"id":"a","name":"  "}]}"#,
        r#"{"data":[{"name":"A"}]}"#,
        r#"{"data":[{"id":"a"}]}"#,
        r#"{"data":[{"id":1,"name":"A"}]}"#,
        r#"{"data":[{"id":"a","name":"A","context_length":-1}]}"#,
        r#"{"data":[{"id":"a","name":"A","pricing":{"prompt":0}}]}"#,
        r#"{"data":[{"id":"a","name":"A","description":null}]}"#,
        r#"{"data":[{"id":"a","name":"A"}]} trailing"#,
    ] {
        assert!(read_catalog(body.as_bytes()).is_err(), "{body}");
    }
}

#[test]
fn tiered_pricing_is_accepted_but_not_assumed_free() {
    let body = br#"{"data":[{"id":"a","name":"A","pricing":{"prompt":"0","completion":"0","overrides":[{"min_prompt_tokens":100,"prompt":"1"}]}}]}"#;
    let catalog = read_catalog(body).unwrap();
    let tiered = catalog.get("a").unwrap();
    assert!(!tiered.is_free());
    assert_eq!(tiered.pricing.get("overrides").unwrap(), "tiered pricing");
    let saved = serde_json::to_vec(&encode_model(tiered)).unwrap();
    let restored = decode_model(&serde_json::from_slice(&saved).unwrap()).unwrap();
    assert_eq!(&restored, tiered);
    assert!(!restored.is_free());
    let body = br#"{"data":[{"id":"a","name":"A","pricing":{"prompt":"0","completion":"0","overrides":[]}}]}"#;
    assert!(read_catalog(body).unwrap().get("a").unwrap().is_free());
}

#[test]
fn parse_rejects_duplicates() {
    let body = r#"{"data":[{"id":"a","name":"A"},{"id":"a","name":"B"}]}"#;
    assert!(read_catalog(body.as_bytes()).is_err());
}

#[test]
fn parse_accepts_valid() {
    let body = r#"{"data":[{"id":"a","name":"A","context_length":8192,"pricing":{"prompt":"0","completion":"0"}}]}"#;
    let catalog = read_catalog(body.as_bytes()).unwrap();
    assert_eq!(catalog.len(), 1);
    assert!(catalog.get("a").unwrap().is_free());
    assert_eq!(catalog.get("a").unwrap().context_length, 8192);
}

#[test]
fn parse_defaults_optional_metadata_and_prices() {
    let catalog = read_catalog(br#"{"data":[{"id":"a","name":"A"}]}"#).unwrap();
    let model = catalog.get("a").unwrap();
    assert_eq!(model.description, "");
    assert_eq!(model.context_length, 0);
    assert!(model.pricing.is_empty());
    assert!(!model.is_free());
}

#[test]
fn validate_rejects_empty_catalog() {
    assert!(validate(&OrderedMap::new()).is_err());
}

#[test]
fn validation_reports_the_first_fault_in_key_order() {
    let mut catalog = OrderedMap::new();
    let blank = Model {
        name: " \t".to_string(),
        ..model("z", &[])
    };
    catalog.insert("z".to_string(), blank);
    catalog.insert("b".to_string(), model("b", &[]));
    assert_eq!(validate(&catalog), Err(CatalogError::EmptyIdentity));
    catalog.insert("k\"ey".to_string(), model("other", &[]));
    let error = validate(&catalog).unwrap_err();
    assert_eq!(
        error,
        CatalogError::KeyMismatch {
            key: "k\"ey".to_string(),
            id: "other".to_string()
        }
    );
    assert_eq!(
        error.message(),
        "catalog key \"k\\\"ey\" does not match model id \"other\""
    );
    assert_eq!(
        validate(&map(vec![model("a", &[]), model("b", &[])])),
        Ok(())
    );
}

#[test]
fn catalog_errors_have_their_messages() {
    assert_eq!(CatalogError::Empty.message(), "catalog is empty");
    assert_eq!(
        CatalogError::EmptyIdentity.message(),
        "model identity is empty"
    );
    assert_eq!(CatalogError::DuplicateId.message(), "duplicate model id");
    assert_eq!(
        CatalogError::ResponseTooLarge.message(),
        "response exceeds 8 MiB limit"
    );
    assert_eq!(
        PricingError.message(),
        "expected a pricing string or overrides array"
    );
}

#[test]
fn parse_reports_the_first_fault_in_listing_order() {
    let blank = model("\u{3000}", &[]);
    assert_eq!(
        parse_catalog(vec![model("b", &[]), model("b", &[]), blank.clone()]),
        Err(CatalogError::DuplicateId)
    );
    assert_eq!(
        parse_catalog(vec![model("b", &[]), blank, model("b", &[])]),
        Err(CatalogError::EmptyIdentity)
    );
    assert_eq!(parse_catalog(vec![]), Err(CatalogError::Empty));
}

#[test]
fn parsed_catalog_is_valid_and_ignores_listing_order() {
    let first = parse_catalog(vec![model("b", &[]), model("a", &[])]).unwrap();
    let second = parse_catalog(vec![model("a", &[]), model("b", &[])]).unwrap();
    assert_eq!(validate(&first), Ok(()));
    assert_eq!(first, second);
    assert_eq!(first.key(0), "a");
    assert_eq!(first.value(1).id, "b");
}

#[test]
fn events_come_once_each_in_id_order() {
    let cur = map(vec![
        model("zeta", &[]),
        model("alpha", &[]),
        model("é", &[]),
    ]);
    let events = changes(&OrderedMap::new(), &cur);
    let ids: Vec<&str> = events.iter().map(|e| e.model.id.as_str()).collect();
    assert_eq!(ids, vec!["alpha", "zeta", "é"]);
    assert!(events.iter().all(|e| e.kind == "new"));
    let mut prev = map(vec![model("alpha", &[])]);
    let without = changes(&prev, &cur);
    prev.insert("gone".to_string(), model("gone", &[]));
    assert_eq!(changes(&prev, &cur), without);
}

#[test]
fn prices_are_read_as_strings_or_overrides() {
    let read = |key: &str, price: RawPrice| {
        let mut raw = OrderedMap::new();
        raw.insert(key.to_string(), price);
        deserialize_pricing(&raw)
    };
    assert_eq!(
        read("overrides", RawPrice::Array(0)),
        Ok(prices(&[("overrides", "0")]))
    );
    assert_eq!(
        read("overrides", RawPrice::Array(2)),
        Ok(prices(&[("overrides", "tiered pricing")]))
    );
    assert_eq!(
        read("overrides", RawPrice::Text("1".to_string())),
        Ok(prices(&[("overrides", "1")]))
    );
    assert_eq!(read("prompt", RawPrice::Array(0)), Err(PricingError));
    assert_eq!(read("overrides", RawPrice::Other), Err(PricingError));
}

#[test]
fn response_body_stops_at_the_limit() {
    let mut body = ResponseBody::new();
    let half = vec![7u8; MAX_RESPONSE_BYTES / 2];
    assert_eq!(body.accept(&half), Ok(()));
    assert_eq!(body.accept(b"x"), Ok(()));
    assert_eq!(body.accept(&half), Err(CatalogError::ResponseTooLarge));
    assert_eq!(body.bytes().len(), MAX_RESPONSE_BYTES / 2 + 1);
    assert_eq!(body.accept(&half[1..]), Ok(()));
    assert_eq!(body.bytes().len(), 8 * 1024 * 1024);
    assert_eq!(body.accept(b""), Ok(()));
    assert_eq!(body.accept(b"y"), Err(CatalogError::ResponseTooLarge));
}
