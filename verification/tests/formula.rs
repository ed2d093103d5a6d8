use reworkspace::formula::{coord_fits, find_cat, find_item, func_named, lex, parse_formula, sheet_fits, Func, Tok};
use reworkspace::improv::Cat;

fn cats() -> Vec<Cat> {
    let cat = |name: &str, items: &[&str], col: bool| Cat { name: name.into(), items: items.iter().map(|s| s.to_string()).collect(), col };
    vec![
        cat("Products", &["Widgets", "Gadgets"], false),
        cat("Items", &["Units", "Price", "Revenue", "Costs", "Profit"], false),
        cat("Quarters", &["Q1", "Q2", "Q3", "Q4", "Average"], true),
    ]
}

fn chars(s: &str) -> Vec<char> {
    s.chars().collect()
}

#[test]
fn formulas_are_read_into_words() {
    let t = lex("Units * Price").unwrap();
    assert_eq!(t, vec![Tok::Name("Units".into()), Tok::Op('*'), Tok::Name("Price".into())]);
    let t = lex(" If(Units <= 0.5, 1., .25) <> x_1 >= 2").unwrap();
    assert_eq!(
        t,
        vec![
            Tok::Name("If".into()),
            Tok::Op('('),
            Tok::Name("Units".into()),
            Tok::Op('≤'),
            Tok::Num("0.5".into()),
            Tok::Op(','),
            Tok::Num("1.".into()),
            Tok::Op(','),
            Tok::Num(".25".into()),
            Tok::Op(')'),
            Tok::Op('≠'),
            Tok::Name("x_1".into()),
            Tok::Op('≥'),
            Tok::Num("2".into()),
        ]
    );
    assert_eq!(lex("a<b").unwrap(), vec![Tok::Name("a".into()), Tok::Op('<'), Tok::Name("b".into())]);
    assert_eq!(lex("").unwrap(), vec![]);
}

#[test]
fn what_is_not_a_word_is_reported() {
    assert_eq!(lex("1.2.3 + 4").unwrap_err(), "bad number “1.2.3”");
    assert_eq!(lex("Units $ 2").unwrap_err(), "unexpected “$”");
    assert_eq!(lex(". + 1").unwrap_err(), "bad number “.”");
    // the first bad word is the one reported
    assert_eq!(lex("1..2 $").unwrap_err(), "bad number “1..2”");
}

#[test]
fn every_number_word_reads_as_a_float() {
    for s in ["0", "12", "1.", ".5", "3.25"] {
        match lex(s).unwrap().as_slice() {
            [Tok::Num(t)] => assert!(t.parse::<f64>().is_ok()),
            other => panic!("{other:?}"),
        }
    }
}

#[test]
fn a_formula_names_the_item_it_writes() {
    let cs = cats();
    let (target, toks) = parse_formula(&cs, "Revenue = Units * Price").unwrap();
    assert_eq!(target, (1, 2));
    assert_eq!(toks.len(), 3);
    let (target, _) = parse_formula(&cs, "  average=Avg(Quarters)").unwrap();
    assert_eq!(target, (2, 4));
    assert_eq!(parse_formula(&cs, "Revenue Units").unwrap_err(), "expected “Item = expression”");
    assert_eq!(parse_formula(&cs, "Margin = 1").unwrap_err(), "no item named “Margin”");
    assert_eq!(parse_formula(&cs, "Profit =   ").unwrap_err(), "the expression is empty");
    assert_eq!(parse_formula(&cs, "Profit = 2 # 3").unwrap_err(), "unexpected “#”");
    // only the first `=` splits: the rest is a comparison
    let (_, toks) = parse_formula(&cs, "Profit = Units = 0").unwrap();
    assert_eq!(toks[1], Tok::Op('='));
}

#[test]
fn names_ignore_ascii_case() {
    let cs = cats();
    assert_eq!(find_item(&cs, &chars("PRICE")), Some((1, 1)));
    assert_eq!(find_item(&cs, &chars("q3")), Some((2, 2)));
    assert_eq!(find_item(&cs, &chars("Quarters")), None);
    assert_eq!(find_cat(&cs, &chars("quarters")), Some(2));
    assert_eq!(find_cat(&cs, &chars("Units")), None);
    assert_eq!(func_named("SUM"), Some(Func::Sum));
    assert_eq!(func_named("Total"), Some(Func::Sum));
    assert_eq!(func_named("mean"), Some(Func::Avg));
    assert_eq!(func_named("If"), Some(Func::If));
    assert_eq!(func_named("median"), None);
}

#[test]
fn a_saved_sheet_is_taken_only_when_it_fits() {
    let cs = cats();
    assert!(sheet_fits(&cs));
    assert!(!sheet_fits(&[]));
    let mut empty = cats();
    empty[0].items.clear();
    assert!(!sheet_fits(&empty));
    let big = |n: usize| Cat { name: "Big".into(), items: (0..n).map(|i| format!("I{i}")).collect(), col: false };
    assert!(!sheet_fits(&[big(257)]));
    assert!(sheet_fits(&[big(256), big(256)]));
    assert!(!sheet_fits(&[big(256), big(256), big(2)]));
    assert!(coord_fits(&[1, 4, 4], &cs));
    assert!(!coord_fits(&[2, 0, 0], &cs));
    assert!(!coord_fits(&[0, 0], &cs));
}
