use ticker_filter::{filter_tickers, sort_tickers, Ticker, Volume};

fn ticker(symbol: &str, quote_volume: f64) -> Ticker {
    Ticker { symbol: symbol.to_string(), quote_volume: Volume::from_bits(quote_volume.to_bits()) }
}

fn symbols_of(tickers: &[Ticker]) -> Vec<String> {
    tickers.iter().map(|t| t.symbol.clone()).collect()
}

fn strings(items: &[&str]) -> Vec<String> {
    items.iter().map(|s| s.to_string()).collect()
}

#[test]
fn sort_orders_by_descending_volume() {
    let sorted = sort_tickers(vec![
        ticker("A", 3.0),
        ticker("B", 1.0),
        ticker("C", 4.0),
        ticker("D", 1.5),
        ticker("E", 9.0),
        ticker("F", 2.0),
    ]);
    assert_eq!(symbols_of(&sorted), strings(&["E", "C", "A", "F", "D", "B"]));
}

#[test]
fn sort_keeps_ties_in_input_order() {
    let sorted = sort_tickers(vec![ticker("A", 50.0), ticker("B", 100.0), ticker("C", 100.0)]);
    assert_eq!(symbols_of(&sorted), strings(&["B", "C", "A"]));
    let sorted = sort_tickers(vec![
        ticker("C", 100.0),
        ticker("A", 50.0),
        ticker("B", 100.0),
        ticker("D", 50.0),
        ticker("E", 100.0),
    ]);
    assert_eq!(symbols_of(&sorted), strings(&["C", "B", "E", "A", "D"]));
}

#[test]
fn sort_adjacent_pairs_descend() {
    let input: Vec<Ticker> = [7.25, 0.0, 1e12, 3.5, 3.5, 0.001, 42.0, 1e-300, 8.0, 7.25]
        .iter()
        .enumerate()
        .map(|(i, v)| ticker(&format!("S{i}"), *v))
        .collect();
    let sorted = sort_tickers(input);
    assert_eq!(sorted.len(), 10);
    for pair in sorted.windows(2) {
        let a = f64::from_bits(pair[0].quote_volume.to_bits());
        let b = f64::from_bits(pair[1].quote_volume.to_bits());
        assert!(a >= b, "{a} before {b}");
    }
}

#[test]
fn sort_is_the_stable_sort_of_the_standard_library() {
    let values =
        [5.0, -1.0, 5.0, 0.0, -0.0, 1e300, 2.5, 2.5, f64::INFINITY, -3.0, 0.0, 5.0, 1e-320];
    let input: Vec<Ticker> =
        values.iter().enumerate().map(|(i, v)| ticker(&format!("S{i}"), *v)).collect();
    let mut expected: Vec<(String, f64)> =
        values.iter().enumerate().map(|(i, v)| (format!("S{i}"), *v)).collect();
    expected.sort_by(|a, b| b.1.partial_cmp(&a.1).unwrap());
    let sorted = sort_tickers(input);
    let got: Vec<(String, u64)> =
        sorted.iter().map(|t| (t.symbol.clone(), t.quote_volume.to_bits())).collect();
    let want: Vec<(String, u64)> = expected.iter().map(|(s, v)| (s.clone(), v.to_bits())).collect();
    assert_eq!(got, want);
}

#[test]
fn sort_keeps_every_ticker() {
    let sorted =
        sort_tickers(vec![ticker("A", 1.0), ticker("A", 1.0), ticker("B", 2.0), ticker("A", 3.0)]);
    let mut symbols = symbols_of(&sorted);
    assert_eq!(symbols, strings(&["A", "B", "A", "A"]));
    symbols.sort();
    assert_eq!(symbols, strings(&["A", "A", "A", "B"]));
}

#[test]
fn sort_of_nothing_and_of_one() {
    assert!(sort_tickers(Vec::new()).is_empty());
    let sorted = sort_tickers(vec![ticker("ONLY", 5000000.0)]);
    assert_eq!(symbols_of(&sorted), strings(&["ONLY"]));
}

#[test]
fn sort_puts_nan_behind_every_number() {
    let sorted = sort_tickers(vec![
        ticker("N1", f64::NAN),
        ticker("A", 1.0),
        ticker("NEG", f64::NEG_INFINITY),
        ticker("N2", -f64::NAN),
        ticker("B", 2.0),
    ]);
    assert_eq!(symbols_of(&sorted), strings(&["B", "A", "NEG", "N1", "N2"]));
}

#[test]
fn sort_orders_negative_volumes() {
    let sorted = sort_tickers(vec![
        ticker("A", -2.0),
        ticker("B", -1.0),
        ticker("C", 0.0),
        ticker("D", -3.0),
    ]);
    assert_eq!(symbols_of(&sorted), strings(&["C", "B", "A", "D"]));
}

#[test]
fn tie_scenario_after_filtering() {
    let tickers = vec![ticker("A", 50.0), ticker("B", 100.0), ticker("C", 100.0)];
    let min = Volume::from_bits(10.0f64.to_bits());
    let kept = filter_tickers(tickers, strings(&["A", "B", "C"]), min);
    assert_eq!(kept.len(), 3);
    let first = symbols_of(&sort_tickers(kept.clone()));
    let second = symbols_of(&sort_tickers(kept));
    assert_eq!(first[2], "A");
    assert!(first[..2].contains(&"B".to_string()));
    assert!(first[..2].contains(&"C".to_string()));
    assert_eq!(first, second);
}
