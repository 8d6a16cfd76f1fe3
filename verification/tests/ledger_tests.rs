use ledger::amount::{parse_amount, AmountParseError, AMOUNT_SCALE};
use ledger::digits::{parse_u32, uint_to_string, usize_to_string, UintParseError};
use ledger::loader::load;
use ledger::location::{Continent, Country};
use ledger::report::{filter_by_continent, sum_by_continent};
use ledger::split::split_char;
use ledger::transaction::Transaction;

fn tx(line: &str) -> Transaction {
    Transaction::from_csv_line(line).expect("line should parse")
}

#[test]
fn parses_valid_row_completely() {
    let t = tx("1,100,AcmeFund,2022-01-01,2022-01-11,USA,1000.0");
    assert_eq!(t.get_transaction_id(), 1);
    assert_eq!(t.get_client_id(), 100);
    assert_eq!(t.get_asset_name().as_str(), "ACMEFUND");
    assert_eq!(t.get_country(), Country::UnitedStates);
    assert_eq!(*t.get_continent(), Continent::NorthAmerica);
    assert_eq!(t.get_amount(), 1000 * AMOUNT_SCALE);
    assert_eq!(t.get_days_under_management(), 10);
    assert_eq!(t.get_start_date().year, 2022);
    assert_eq!(t.get_start_date().month, 1);
    assert_eq!(t.get_start_date().day, 1);
    assert_eq!(t.get_end_date().day, 11);
}

#[test]
fn parse_is_deterministic() {
    let line = "7,8,Mixed Case,2021-06-30,2021-07-02,Japan,42.5";
    let a = tx(line);
    let b = tx(line);
    assert_eq!(a.get_transaction_id(), b.get_transaction_id());
    assert_eq!(a.get_client_id(), b.get_client_id());
    assert_eq!(a.get_asset_name().as_str(), b.get_asset_name().as_str());
    assert_eq!(a.get_start_date(), b.get_start_date());
    assert_eq!(a.get_end_date(), b.get_end_date());
    assert_eq!(a.get_country(), b.get_country());
    assert_eq!(*a.get_continent(), *b.get_continent());
    assert_eq!(a.get_amount(), b.get_amount());
    assert_eq!(a.get_days_under_management(), b.get_days_under_management());
}

#[test]
fn days_can_be_negative() {
    let t = tx("3,1,X,2022-01-10,2022-01-01,UK,1.0");
    assert_eq!(t.get_days_under_management(), -9);
}

#[test]
fn days_span_a_leap_day() {
    let t = tx("4,2,Y,2020-02-28,2020-03-01,Canada,5.0");
    assert_eq!(t.get_days_under_management(), 2);
}

#[test]
fn unknown_country_is_rejected() {
    let err = Transaction::from_csv_line("2,101,Bond,2022-01-01,2022-01-05,Atlantis,500.0")
        .unwrap_err();
    assert!(err.contains("Error parsing country"));
    assert_eq!(err, "Error parsing country: Invalid country name");
}

#[test]
fn country_match_is_case_sensitive() {
    let err =
        Transaction::from_csv_line("2,101,Bond,2022-01-01,2022-01-05,usa,500.0").unwrap_err();
    assert!(err.contains("Error parsing country"));
}

#[test]
fn five_fields_are_rejected() {
    let err = Transaction::from_csv_line("1,100,AcmeFund,2022-01-01,2022-01-11").unwrap_err();
    assert_eq!(err, "Expected 7 fields but found 5");
}

#[test]
fn eight_fields_are_rejected() {
    let err =
        Transaction::from_csv_line("1,100,Fund,2022-01-01,2022-01-11,USA,1.0,extra").unwrap_err();
    assert_eq!(err, "Expected 7 fields but found 8");
}

#[test]
fn bad_transaction_id_names_the_field() {
    let err =
        Transaction::from_csv_line("x,100,Fund,2022-01-01,2022-01-11,USA,1.0").unwrap_err();
    assert_eq!(err, "Error parsing transaction_id: invalid digit found in string");
}

#[test]
fn empty_transaction_id_names_the_field() {
    let err = Transaction::from_csv_line(",100,Fund,2022-01-01,2022-01-11,USA,1.0").unwrap_err();
    assert_eq!(err, "Error parsing transaction_id: cannot parse integer from empty string");
}

#[test]
fn huge_client_id_overflows() {
    let err =
        Transaction::from_csv_line("1,4294967296,Fund,2022-01-01,2022-01-11,USA,1.0").unwrap_err();
    assert_eq!(err, "Error parsing client_id: number too large to fit in target type");
}

#[test]
fn bad_start_date_names_the_field() {
    let err =
        Transaction::from_csv_line("1,100,Fund,2022-13-01,2022-01-11,USA,1.0").unwrap_err();
    assert!(err.starts_with("Error parsing transaction_start_date: "));
}

#[test]
fn bad_end_date_names_the_field() {
    let err =
        Transaction::from_csv_line("1,100,Fund,2022-01-01,not-a-date,USA,1.0").unwrap_err();
    assert!(err.starts_with("Error parsing transaction_end_date: "));
}

#[test]
fn bad_amount_names_the_field() {
    let err =
        Transaction::from_csv_line("1,100,Fund,2022-01-01,2022-01-11,USA,12.3.4").unwrap_err();
    assert_eq!(err, "Error parsing amount: invalid decimal literal");
}

#[test]
fn empty_asset_name_is_accepted() {
    let t = tx("1,100,,2022-01-01,2022-01-11,USA,1.0");
    assert_eq!(t.get_asset_name().as_str(), "");
}

#[test]
fn all_countries_map_to_their_continent() {
    let cases = [
        ("USA", Country::UnitedStates, Continent::NorthAmerica),
        ("Canada", Country::Canada, Continent::NorthAmerica),
        ("UK", Country::UnitedKingdom, Continent::Europe),
        ("Germany", Country::Germany, Continent::Europe),
        ("France", Country::France, Continent::Europe),
        ("Japan", Country::Japan, Continent::Asia),
        ("Australia", Country::Australia, Continent::Oceania),
        ("China", Country::China, Continent::Asia),
        ("Brazil", Country::Brazil, Continent::SouthAmerica),
        ("South Korea", Country::SouthKorea, Continent::Asia),
        ("Ireland", Country::Ireland, Continent::Europe),
        ("Spain", Country::Spain, Continent::Europe),
        ("India", Country::India, Continent::Asia),
        ("Switzerland", Country::Switzerland, Continent::Europe),
    ];
    for (code, country, continent) in cases {
        let parsed = Country::from_code(code).expect("recognized spelling");
        assert_eq!(parsed, country);
        assert_eq!(parsed.country_to_continent(), continent);
    }
}

#[test]
fn unknown_spelling_fails_with_fixed_message() {
    assert_eq!(Country::from_code("Atlantis").unwrap_err(), "Invalid country name");
    assert_eq!(Country::from_code("").unwrap_err(), "Invalid country name");
    assert_eq!(Country::from_code("south korea").unwrap_err(), "Invalid country name");
}

#[test]
fn country_from_str_matches_from_code() {
    let c: Country = "Germany".parse().expect("recognized spelling");
    assert_eq!(c, Country::Germany);
    let e: Result<Country, _> = "germany".parse();
    assert_eq!(e.unwrap_err(), "Invalid country name");
}

#[test]
fn load_partitions_and_keeps_order() {
    let lines: Vec<String> = vec![
        "transaction_id,client_id,asset_name,start,end,country,amount".to_string(),
        "1,100,A,2022-01-01,2022-01-11,USA,10.0".to_string(),
        "2,101,B,2022-01-01,2022-01-05,Atlantis,5.0".to_string(),
        "3,102,C,2022-02-01,2022-02-03,Japan,7.5".to_string(),
        "bad line".to_string(),
    ];
    let (accepted, rejected) = load(&lines);
    assert_eq!(accepted.len() + rejected.len(), lines.len() - 1);
    assert_eq!(accepted.len(), 2);
    assert_eq!(accepted[0].get_transaction_id(), 1);
    assert_eq!(accepted[1].get_transaction_id(), 3);
    assert_eq!(rejected.len(), 2);
    assert_eq!(rejected[0].line_index, 2);
    assert!(rejected[0].message.contains("Error parsing country"));
    assert_eq!(rejected[0].raw_text, "2,101,B,2022-01-01,2022-01-05,Atlantis,5.0");
    assert_eq!(rejected[1].line_index, 4);
    assert_eq!(rejected[1].message, "Expected 7 fields but found 1");
    assert_eq!(rejected[1].raw_text, "bad line");
    assert!(rejected[0].line_index < rejected[1].line_index);
}

#[test]
fn load_skips_header_even_if_parseable() {
    let lines: Vec<String> = vec![
        "1,100,A,2022-01-01,2022-01-11,USA,10.0".to_string(),
        "2,200,B,2022-01-01,2022-01-11,France,20.0".to_string(),
    ];
    let (accepted, rejected) = load(&lines);
    assert_eq!(accepted.len(), 1);
    assert_eq!(rejected.len(), 0);
    assert_eq!(accepted[0].get_transaction_id(), 2);
}

#[test]
fn load_of_nothing_is_empty() {
    let lines: Vec<String> = Vec::new();
    let (accepted, rejected) = load(&lines);
    assert!(accepted.is_empty());
    assert!(rejected.is_empty());
    let header_only = vec!["header".to_string()];
    let (accepted, rejected) = load(&header_only);
    assert!(accepted.is_empty());
    assert!(rejected.is_empty());
}

#[test]
fn europe_total_sums_germany_and_france() {
    let lines: Vec<String> = vec![
        "header".to_string(),
        "1,1,A,2022-01-01,2022-01-02,Germany,200.0".to_string(),
        "2,2,B,2022-01-01,2022-01-02,France,300.0".to_string(),
    ];
    let (accepted, _) = load(&lines);
    let totals = sum_by_continent(&accepted);
    assert_eq!(totals.len(), 1);
    assert_eq!(totals[0].0, Continent::Europe);
    assert_eq!(totals[0].1, 500 * AMOUNT_SCALE as i128);
}

#[test]
fn totals_group_by_continent_exactly() {
    let rows = [
        "1,1,A,2022-01-01,2022-01-02,USA,100.25",
        "2,2,B,2022-01-01,2022-01-02,Japan,50.0",
        "3,3,C,2022-01-01,2022-01-02,Canada,0.75",
        "4,4,D,2022-01-01,2022-01-02,China,-10.0",
    ];
    let txs: Vec<Transaction> = rows.iter().map(|r| tx(r)).collect();
    let totals = sum_by_continent(&txs);
    assert_eq!(totals.len(), 2);
    let na = totals.iter().find(|e| e.0 == Continent::NorthAmerica).unwrap();
    let asia = totals.iter().find(|e| e.0 == Continent::Asia).unwrap();
    assert_eq!(na.1, 101 * AMOUNT_SCALE as i128);
    assert_eq!(asia.1, 40 * AMOUNT_SCALE as i128);
    assert!(totals.iter().all(|e| e.0 != Continent::Europe));
    assert!(totals.iter().all(|e| e.0 != Continent::Oceania));
    assert!(totals.iter().all(|e| e.0 != Continent::SouthAmerica));
}

#[test]
fn totals_of_no_transactions_are_empty() {
    let txs: Vec<Transaction> = Vec::new();
    assert!(sum_by_continent(&txs).is_empty());
}

#[test]
fn per_continent_totals_add_up_to_the_grand_total() {
    let rows = [
        "1,1,A,2022-01-01,2022-01-02,USA,100.25",
        "2,2,B,2022-01-01,2022-01-02,Japan,50.0",
        "3,3,C,2022-01-01,2022-01-02,Germany,0.75",
        "4,4,D,2022-01-01,2022-01-02,Australia,8.5",
        "5,5,E,2022-01-01,2022-01-02,Brazil,-3.25",
    ];
    let txs: Vec<Transaction> = rows.iter().map(|r| tx(r)).collect();
    let totals = sum_by_continent(&txs);
    let sum_of_totals: i128 = totals.iter().map(|e| e.1).sum();
    let grand_total: i128 = txs.iter().map(|t| t.get_amount() as i128).sum();
    assert_eq!(sum_of_totals, grand_total);
}

#[test]
fn filter_returns_europe_in_original_order() {
    let rows = [
        "1,1,A,2022-01-01,2022-01-02,Germany,1.0",
        "2,2,B,2022-01-01,2022-01-02,USA,2.0",
        "3,3,C,2022-01-01,2022-01-02,France,3.0",
        "4,4,D,2022-01-01,2022-01-02,Spain,4.0",
        "5,5,E,2022-01-01,2022-01-02,Japan,5.0",
    ];
    let txs: Vec<Transaction> = rows.iter().map(|r| tx(r)).collect();
    let europe = filter_by_continent(&txs, &Continent::Europe);
    assert_eq!(europe.len(), 3);
    assert_eq!(europe[0].get_transaction_id(), 1);
    assert_eq!(europe[1].get_transaction_id(), 3);
    assert_eq!(europe[2].get_transaction_id(), 4);
    assert!(europe.iter().all(|t| *t.get_continent() == Continent::Europe));
    let totals = sum_by_continent(&txs);
    let europe_total = totals.iter().find(|e| e.0 == Continent::Europe).unwrap().1;
    let filtered_total: i128 = europe.iter().map(|t| t.get_amount() as i128).sum();
    assert_eq!(europe_total, filtered_total);
}

#[test]
fn filter_of_absent_continent_is_empty() {
    let txs = vec![tx("1,1,A,2022-01-01,2022-01-02,Japan,5.0")];
    assert!(filter_by_continent(&txs, &Continent::SouthAmerica).is_empty());
}

#[test]
fn getters_expose_continent_and_amount() {
    let t = tx("9,9,F,2022-01-01,2022-01-02,Brazil,12.5");
    assert_eq!(*t.get_continent(), Continent::SouthAmerica);
    assert_eq!(t.get_amount(), 125_000);
}

#[test]
fn parse_u32_accepts_plain_and_signed_digits() {
    assert_eq!(parse_u32("0"), Ok(0));
    assert_eq!(parse_u32("007"), Ok(7));
    assert_eq!(parse_u32("+5"), Ok(5));
    assert_eq!(parse_u32("4294967295"), Ok(u32::MAX));
}

#[test]
fn parse_u32_rejects_bad_input() {
    assert_eq!(parse_u32(""), Err(UintParseError::Empty));
    assert_eq!(parse_u32("+"), Err(UintParseError::InvalidDigit));
    assert_eq!(parse_u32("12x"), Err(UintParseError::InvalidDigit));
    assert_eq!(parse_u32("-3"), Err(UintParseError::InvalidDigit));
    assert_eq!(parse_u32("4294967296"), Err(UintParseError::Overflow));
    assert_eq!(parse_u32("99999999999999999999"), Err(UintParseError::Overflow));
}

#[test]
fn parse_amount_scales_to_fixed_point() {
    assert_eq!(parse_amount("1000.0"), Ok(1000 * AMOUNT_SCALE));
    assert_eq!(parse_amount("0"), Ok(0));
    assert_eq!(parse_amount("-2.5"), Ok(-25_000));
    assert_eq!(parse_amount("+3"), Ok(30_000));
    assert_eq!(parse_amount("1.2345"), Ok(12_345));
    assert_eq!(parse_amount("0.001"), Ok(10));
}

#[test]
fn parse_amount_rejects_bad_input() {
    assert_eq!(parse_amount(""), Err(AmountParseError::Empty));
    assert_eq!(parse_amount("abc"), Err(AmountParseError::Invalid));
    assert_eq!(parse_amount("1."), Err(AmountParseError::Invalid));
    assert_eq!(parse_amount(".5"), Err(AmountParseError::Invalid));
    assert_eq!(parse_amount("1.23456"), Err(AmountParseError::Invalid));
    assert_eq!(parse_amount("1.2.3"), Err(AmountParseError::Invalid));
    assert_eq!(parse_amount("-"), Err(AmountParseError::Invalid));
    assert_eq!(parse_amount("99999999999999999999"), Err(AmountParseError::Overflow));
}

#[test]
fn numbers_render_back_to_decimal() {
    assert_eq!(uint_to_string(0), "0");
    assert_eq!(uint_to_string(7), "7");
    assert_eq!(uint_to_string(12345), "12345");
    assert_eq!(usize_to_string(4080), "4080");
}

#[test]
fn split_keeps_empty_fields() {
    let fields = split_char("a,b,,c", ',');
    assert_eq!(fields, vec!["a", "b", "", "c"]);
    assert_eq!(split_char("", ','), vec![""]);
    assert_eq!(split_char(",", ','), vec!["", ""]);
    assert_eq!(split_char("no delimiter", ','), vec!["no delimiter"]);
}

#[test]
fn uppercasing_changes_lowercase_assets() {
    let t = tx("1,1,mixed Case fund,2022-01-01,2022-01-02,UK,1.0");
    assert_eq!(t.get_asset_name().as_str(), "MIXED CASE FUND");
}
