use assetman::ledger::{Assets, Error, Evaluation};
use assetman::protocol::{Answer, Error as PluginFault, PluginInfo, PluginType, Request};
use assetman::registry::{answer_of, PluginError, Plugins};

fn info(name: &str, plugin_type: PluginType) -> PluginInfo {
    PluginInfo {
        name: name.to_string(),
        plugin_type,
        description: format!("{} test plugin", name),
    }
}

/// What a plugin that echoes its argument as a number answers.
fn echo(request: &Request) -> Option<Result<Answer, PluginFault>> {
    match request.arguments.parse::<f64>() {
        Ok(v) => Some(Ok(Answer { answer: v.to_bits() })),
        Err(_) => Some(Err(PluginFault { code: 2, description: "not a number".to_string() })),
    }
}

fn evaluate(registry: &Plugins, formula: &str, expected: PluginType) -> Result<u64, PluginError> {
    let (_, request) = registry.dispatch(formula, expected)?;
    answer_of(echo(&request))
}

fn static_plugins() -> Plugins {
    Plugins::from_infos(vec![
        info("static_p", PluginType::Price),
        info("static_h", PluginType::Holdings),
    ])
    .unwrap()
}

/// Evaluates the formulas the ledger asks for and commits the outcome.
fn refresh(assets: &mut Assets, registry: &Plugins) -> Result<u64, Error> {
    let mut outcomes: Vec<Evaluation> = Vec::new();
    while let Some((formula, expected)) = assets.next_formula(&outcomes) {
        let outcome = evaluate(registry, formula, expected);
        outcomes.push(outcome);
    }
    assets.fetch_data(outcomes)
}

fn add(assets: &mut Assets, registry: &Plugins, name: &str, price: &str, holdings: &str) -> Result<u64, Error> {
    let price_check = evaluate(registry, price, PluginType::Price);
    let holdings_check = evaluate(registry, holdings, PluginType::Holdings);
    assets.add_asset(name, "stock", price, holdings, price_check, holdings_check)
}

#[test]
fn refresh_lists_echoed_values() {
    let registry = static_plugins();
    let mut assets = Assets::new();
    assert_eq!(add(&mut assets, &registry, "Siemens", "static_p(100.0)", "static_h(2.0)"), Ok(1));
    assert_eq!(refresh(&mut assets, &registry), Ok(1));
    let snapshot = assets.list_assets(false).unwrap();
    assert_eq!(snapshot.version, 1);
    assert_eq!(snapshot.assets.len(), 1);
    let asset = &snapshot.assets[0];
    assert_eq!(asset.id, 1);
    assert_eq!(asset.name, "Siemens");
    assert_eq!(asset.category, "stock");
    assert_eq!(f64::from_bits(asset.price), 100.0);
    assert_eq!(f64::from_bits(asset.holdings), 2.0);
}

#[test]
fn failed_refresh_commits_nothing() {
    let registry = static_plugins();
    let mut assets = Assets::new();
    add(&mut assets, &registry, "A", "static_p(1.0)", "static_h(1.0)").unwrap();
    add(&mut assets, &registry, "B", "static_p(2.0)", "static_h(2.0)").unwrap();
    assert_eq!(refresh(&mut assets, &registry), Ok(1));
    let before = assets.list_assets(false).unwrap();
    let outcomes: Vec<Evaluation> = vec![
        Ok(5.0f64.to_bits()),
        Ok(5.0f64.to_bits()),
        Ok(6.0f64.to_bits()),
        Err(PluginError::BadAnswer),
    ];
    assert_eq!(assets.fetch_data(outcomes), Err(Error::PluginError(PluginError::BadAnswer)));
    assert_eq!(assets.list_assets(false).unwrap(), before);
    // the burnt version is not reused
    assert_eq!(refresh(&mut assets, &registry), Ok(3));
}

#[test]
fn first_fault_is_reported() {
    let mut assets = Assets::new();
    let registry = static_plugins();
    add(&mut assets, &registry, "A", "static_p(1.0)", "static_h(1.0)").unwrap();
    add(&mut assets, &registry, "B", "static_p(2.0)", "static_h(2.0)").unwrap();
    let outcomes: Vec<Evaluation> = vec![
        Ok(1),
        Err(PluginError::WrongType),
        Err(PluginError::UnknownPlugin),
        Ok(1),
    ];
    assert_eq!(assets.fetch_data(outcomes), Err(Error::PluginError(PluginError::WrongType)));
    let outcomes: Vec<Evaluation> = vec![Err(PluginError::QueryParseError), Ok(1), Ok(1), Ok(1)];
    assert_eq!(assets.fetch_data(outcomes), Err(Error::PluginError(PluginError::QueryParseError)));
    assert_eq!(assets.list_assets(false), Err(Error::NoSnapshot));
}

#[test]
fn refresh_missing_an_asset_is_refused() {
    let registry = static_plugins();
    let mut assets = Assets::new();
    add(&mut assets, &registry, "A", "static_p(1.0)", "static_h(1.0)").unwrap();
    add(&mut assets, &registry, "B", "static_p(2.0)", "static_h(2.0)").unwrap();
    let outcomes: Vec<Evaluation> = vec![Ok(1), Ok(1)];
    assert_eq!(assets.fetch_data(outcomes), Err(Error::IncompleteRefresh));
    let outcomes: Vec<Evaluation> = vec![Ok(1), Ok(1), Ok(1)];
    assert_eq!(assets.fetch_data(outcomes), Err(Error::IncompleteRefresh));
    let outcomes: Vec<Evaluation> = vec![Ok(1), Ok(1), Ok(1), Ok(1), Ok(1), Ok(1)];
    assert_eq!(assets.fetch_data(outcomes), Err(Error::IncompleteRefresh));
    assert_eq!(assets.list_assets(false), Err(Error::NoSnapshot));
}

#[test]
fn successive_refreshes_increase_versions() {
    let registry = static_plugins();
    let mut assets = Assets::new();
    add(&mut assets, &registry, "A", "static_p(1.0)", "static_h(1.0)").unwrap();
    let first = refresh(&mut assets, &registry).unwrap();
    add(&mut assets, &registry, "B", "static_p(2.0)", "static_h(3.0)").unwrap();
    let second = refresh(&mut assets, &registry).unwrap();
    assert!(first < second);
    let snapshot = assets.list_assets(false).unwrap();
    assert_eq!(snapshot.version, second);
    let names: Vec<&str> = snapshot.assets.iter().map(|a| a.name.as_str()).collect();
    assert_eq!(names, vec!["A", "B"]);
    assert_eq!(f64::from_bits(snapshot.assets[1].holdings), 3.0);
}

#[test]
fn listing_is_ordered_by_name() {
    let registry = static_plugins();
    let mut assets = Assets::new();
    add(&mut assets, &registry, "Gold", "static_p(1.0)", "static_h(1.0)").unwrap();
    add(&mut assets, &registry, "Bitcoin", "static_p(2.0)", "static_h(1.0)").unwrap();
    add(&mut assets, &registry, "Euro", "static_p(3.0)", "static_h(1.0)").unwrap();
    add(&mut assets, &registry, "Bit", "static_p(4.0)", "static_h(1.0)").unwrap();
    refresh(&mut assets, &registry).unwrap();
    let snapshot = assets.list_assets(false).unwrap();
    let listed: Vec<(u64, &str)> = snapshot.assets.iter().map(|a| (a.id, a.name.as_str())).collect();
    assert_eq!(listed, vec![(4, "Bit"), (2, "Bitcoin"), (3, "Euro"), (1, "Gold")]);
}

#[test]
fn zero_holdings_are_skipped_on_request() {
    let registry = static_plugins();
    let mut assets = Assets::new();
    add(&mut assets, &registry, "A", "static_p(1.0)", "static_h(0.0)").unwrap();
    add(&mut assets, &registry, "B", "static_p(1.0)", "static_h(-0.0)").unwrap();
    add(&mut assets, &registry, "C", "static_p(1.0)", "static_h(0.5)").unwrap();
    refresh(&mut assets, &registry).unwrap();
    assert_eq!(assets.list_assets(false).unwrap().assets.len(), 3);
    let kept = assets.list_assets(true).unwrap();
    assert_eq!(kept.assets.len(), 1);
    assert_eq!(kept.assets[0].name, "C");
}

#[test]
fn asset_added_after_refresh_is_not_listed_yet() {
    let registry = static_plugins();
    let mut assets = Assets::new();
    add(&mut assets, &registry, "A", "static_p(1.0)", "static_h(1.0)").unwrap();
    refresh(&mut assets, &registry).unwrap();
    add(&mut assets, &registry, "B", "static_p(1.0)", "static_h(1.0)").unwrap();
    assert_eq!(assets.list_assets(false).unwrap().assets.len(), 1);
    assert_eq!(assets.tracked_assets().len(), 2);
}

#[test]
fn adding_checks_formulas_and_names() {
    let registry = static_plugins();
    let mut assets = Assets::new();
    assert_eq!(
        add(&mut assets, &registry, "A", "static_h(1.0)", "static_h(1.0)"),
        Err(Error::PluginError(PluginError::WrongType))
    );
    assert_eq!(
        add(&mut assets, &registry, "A", "static_p(1.0)", "nothing(1.0)"),
        Err(Error::PluginError(PluginError::UnknownPlugin))
    );
    assert_eq!(
        add(&mut assets, &registry, "A", "static_p1.0", "static_h(1.0)"),
        Err(Error::PluginError(PluginError::QueryParseError))
    );
    assert_eq!(assets.tracked_assets().len(), 0);
    assert_eq!(add(&mut assets, &registry, "A", "static_p(1.0)", "static_h(1.0)"), Ok(1));
    assert_eq!(
        add(&mut assets, &registry, "A", "static_p(2.0)", "static_h(2.0)"),
        Err(Error::DuplicateAsset)
    );
    assert_eq!(add(&mut assets, &registry, "a", "static_p(2.0)", "static_h(2.0)"), Ok(2));
    let listed_assets = assets.tracked_assets();
    assert_eq!(listed_assets[0].name, "A");
    assert_eq!(listed_assets[0].price_query, "static_p(1.0)");
    assert_eq!(listed_assets[0].holdings_query, "static_h(1.0)");
}

#[test]
fn empty_ledger_has_no_snapshot() {
    let mut assets = Assets::new();
    assert_eq!(assets.list_assets(false), Err(Error::NoSnapshot));
    assert_eq!(assets.fetch_data(Vec::new()), Ok(1));
    let snapshot = assets.list_assets(true).unwrap();
    assert_eq!(snapshot.version, 1);
    assert!(snapshot.assets.is_empty());
}

#[test]
fn formulas_are_asked_for_in_order() {
    let registry = static_plugins();
    let mut assets = Assets::new();
    add(&mut assets, &registry, "B", "static_p(2.0)", "static_h(3.0)").unwrap();
    add(&mut assets, &registry, "A", "static_p(1.0)", "static_h(4.0)").unwrap();
    let mut done: Vec<Evaluation> = Vec::new();
    let expect = [
        ("static_p(1.0)", PluginType::Price),
        ("static_h(4.0)", PluginType::Holdings),
        ("static_p(2.0)", PluginType::Price),
        ("static_h(3.0)", PluginType::Holdings),
    ];
    for (formula, expected) in expect.iter() {
        let (f, t) = assets.next_formula(&done).unwrap();
        assert_eq!(f, formula);
        assert_eq!(t, *expected);
        done.push(Ok(1));
    }
    assert!(assets.next_formula(&done).is_none());
    let failed: Vec<Evaluation> = vec![Ok(1), Err(PluginError::BadAnswer)];
    assert!(assets.next_formula(&failed).is_none());
}

#[test]
fn asset_is_found_by_name() {
    let registry = static_plugins();
    let mut assets = Assets::new();
    add(&mut assets, &registry, "Gold", "static_p(1.0)", "static_h(1.0)").unwrap();
    add(&mut assets, &registry, "Euro", "static_p(2.0)", "static_h(1.0)").unwrap();
    let gold = assets.asset("Gold").unwrap();
    assert_eq!(gold.id, 1);
    assert_eq!(gold.price_query, "static_p(1.0)");
    assert_eq!(assets.asset("Euro").unwrap().id, 2);
    assert!(matches!(assets.asset("Silver"), Err(Error::AssetNotFound)));
    assert!(matches!(assets.asset("gold"), Err(Error::AssetNotFound)));
}
