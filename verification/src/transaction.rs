//! One ledger record, parsed and validated from a delimited text line.

use vstd::prelude::*;
use crate::amount::{parse_amount, spec_amount_error_message, spec_parse_amount, amount_error_message};
use crate::date::{chrono_date_of, parse_date, spec_date_of_parts, Date};
use crate::digits::{parse_u32, spec_parse_u32, spec_uint_error_message, spec_uint_string,
    uint_error_message, usize_to_string};
use crate::location::{continent_of, spec_country_of, Continent, Country};
use crate::split::{field_views, split_char, split_on};

verus! {

/// What str::to_uppercase returns; the result depends on the input
/// characters alone.
pub uninterp spec fn upper_of(s: Seq<char>) -> Seq<char>;

/// Relies on str::to_uppercase: Unicode uppercasing of the text; an empty
/// string stays empty.
#[verifier::external_body]
fn to_upper(s: &str) -> (r: String)
    ensures
        r@ == upper_of(s@),
        s@.len() == 0 ==> r@.len() == 0,
{
    s.to_uppercase()
}

/// A validated ledger record. The fields are private: a record is only ever
/// built by parsing a line, and its continent is derived from its country at
/// construction, never independently settable; the amount is fixed-point,
/// scaled by `crate::amount::AMOUNT_SCALE`.
#[derive(Debug)]
pub struct Transaction {
    transaction_id: u32,
    client_id: u32,
    asset_name: String,
    transaction_start_date: Date,
    transaction_end_date: Date,
    country: Country,
    continent: Continent,
    amount: i64,
    days_under_management: i64,
}

/// The mathematical content of a `Transaction`.
pub ghost struct TransactionView {
    pub transaction_id: u32,
    pub client_id: u32,
    pub asset_name: Seq<char>,
    pub transaction_start_date: Date,
    pub transaction_end_date: Date,
    pub country: Country,
    pub continent: Continent,
    pub amount: i64,
    pub days_under_management: i64,
}

impl Transaction {
    /// The continent is not free: every record carries the continent its
    /// country maps to.
    #[verifier::type_invariant]
    spec fn continent_derived(self) -> bool {
        self.continent == continent_of(self.country)
    }
}

impl View for Transaction {
    type V = TransactionView;

    closed spec fn view(&self) -> TransactionView {
        TransactionView {
            transaction_id: self.transaction_id,
            client_id: self.client_id,
            asset_name: self.asset_name@,
            transaction_start_date: self.transaction_start_date,
            transaction_end_date: self.transaction_end_date,
            country: self.country,
            continent: self.continent,
            amount: self.amount,
            days_under_management: self.days_under_management,
        }
    }
}

/// The whole parse of one line, as a function of its characters: split on
/// commas, require exactly seven fields, parse each field in order, and stop
/// at the first failure with its message. The continent is derived from the
/// country, and the days under management are the day difference end minus
/// start (negative when the end precedes the start).
pub open spec fn spec_parse_line(s: Seq<char>) -> Result<TransactionView, Seq<char>> {
    let fields = split_on(s, ',');
    if fields.len() != 7 {
        Err("Expected 7 fields but found "@ + spec_uint_string(fields.len()))
    } else if spec_parse_u32(fields[0]) is Err {
        Err(
            "Error parsing transaction_id: "@ + spec_uint_error_message(
                spec_parse_u32(fields[0])->Err_0,
            ),
        )
    } else if spec_parse_u32(fields[1]) is Err {
        Err(
            "Error parsing client_id: "@ + spec_uint_error_message(
                spec_parse_u32(fields[1])->Err_0,
            ),
        )
    } else if chrono_date_of(fields[3]) is Err {
        Err("Error parsing transaction_start_date: "@ + chrono_date_of(fields[3])->Err_0)
    } else if chrono_date_of(fields[4]) is Err {
        Err("Error parsing transaction_end_date: "@ + chrono_date_of(fields[4])->Err_0)
    } else if spec_country_of(fields[5]) is None {
        Err("Error parsing country: Invalid country name"@)
    } else if spec_parse_amount(fields[6]) is Err {
        Err(
            "Error parsing amount: "@ + spec_amount_error_message(
                spec_parse_amount(fields[6])->Err_0,
            ),
        )
    } else {
        let start = spec_date_of_parts(chrono_date_of(fields[3])->Ok_0);
        let end = spec_date_of_parts(chrono_date_of(fields[4])->Ok_0);
        let country = spec_country_of(fields[5])->0;
        Ok(
            TransactionView {
                transaction_id: spec_parse_u32(fields[0])->Ok_0,
                client_id: spec_parse_u32(fields[1])->Ok_0,
                asset_name: upper_of(fields[2]),
                transaction_start_date: start,
                transaction_end_date: end,
                country: country,
                continent: continent_of(country),
                amount: spec_parse_amount(fields[6])->Ok_0,
                days_under_management: (end.day_number - start.day_number) as i64,
            },
        )
    }
}

impl Transaction {
    /// Parse one comma-separated line into a record, or the message of the
    /// first failure. The result is exactly `spec_parse_line` of the line.
    pub fn from_csv_line(line: &str) -> (r: Result<Transaction, String>)
        ensures
            r is Ok <==> spec_parse_line(line@) is Ok,
            r is Ok ==> r->Ok_0@ == spec_parse_line(line@)->Ok_0,
            r is Err ==> r->Err_0@ == spec_parse_line(line@)->Err_0,
    {
        let fields = split_char(line, ',');
        proof {
            assert(fields@.len() == field_views(fields@).len());
            assert(forall|k: int| 0 <= k < fields@.len() ==> field_views(fields@)[k]
                == fields@[k]@);
        }
        if fields.len() != 7 {
            let found = usize_to_string(fields.len());
            return Err("Expected 7 fields but found ".to_owned().concat(found.as_str()));
        }
        let transaction_id: u32 = match parse_u32(fields[0].as_str()) {
            Ok(v) => v,
            Err(e) => {
                return Err(
                    "Error parsing transaction_id: ".to_owned().concat(uint_error_message(e)),
                );
            },
        };
        let client_id: u32 = match parse_u32(fields[1].as_str()) {
            Ok(v) => v,
            Err(e) => {
                return Err("Error parsing client_id: ".to_owned().concat(uint_error_message(e)));
            },
        };
        let asset_name = to_upper(fields[2].as_str());
        let transaction_start_date: Date = match parse_date(fields[3].as_str()) {
            Ok(d) => d,
            Err(e) => {
                return Err(
                    "Error parsing transaction_start_date: ".to_owned().concat(e.as_str()),
                );
            },
        };
        let transaction_end_date: Date = match parse_date(fields[4].as_str()) {
            Ok(d) => d,
            Err(e) => {
                return Err("Error parsing transaction_end_date: ".to_owned().concat(e.as_str()));
            },
        };
        let country: Country = match Country::from_code(fields[5].as_str()) {
            Ok(c) => c,
            Err(_) => {
                return Err("Error parsing country: Invalid country name".to_owned());
            },
        };
        let amount: i64 = match parse_amount(fields[6].as_str()) {
            Ok(v) => v,
            Err(e) => {
                return Err("Error parsing amount: ".to_owned().concat(amount_error_message(e)));
            },
        };
        let days_under_management: i64 = transaction_end_date.day_number as i64
            - transaction_start_date.day_number as i64;
        let continent = country.country_to_continent();
        Ok(
            Transaction {
                transaction_id,
                client_id,
                asset_name,
                transaction_start_date,
                transaction_end_date,
                country,
                continent,
                amount,
                days_under_management,
            },
        )
    }

    /// The record's continent: always exactly the continent its country
    /// maps to.
    pub fn get_continent(&self) -> (r: &Continent)
        ensures
            *r == self@.continent,
            *r == continent_of(self@.country),
    {
        proof {
            use_type_invariant(&*self);
        }
        &self.continent
    }

    /// The invested amount, scaled by `crate::amount::AMOUNT_SCALE`.
    pub fn get_amount(&self) -> (r: i64)
        ensures
            r == self@.amount,
    {
        self.amount
    }

    pub fn get_transaction_id(&self) -> (r: u32)
        ensures
            r == self@.transaction_id,
    {
        self.transaction_id
    }

    pub fn get_client_id(&self) -> (r: u32)
        ensures
            r == self@.client_id,
    {
        self.client_id
    }

    pub fn get_asset_name(&self) -> (r: &String)
        ensures
            r@ == self@.asset_name,
    {
        &self.asset_name
    }

    pub fn get_start_date(&self) -> (r: Date)
        ensures
            r == self@.transaction_start_date,
    {
        self.transaction_start_date
    }

    pub fn get_end_date(&self) -> (r: Date)
        ensures
            r == self@.transaction_end_date,
    {
        self.transaction_end_date
    }

    pub fn get_country(&self) -> (r: Country)
        ensures
            r == self@.country,
    {
        self.country
    }

    pub fn get_days_under_management(&self) -> (r: i64)
        ensures
            r == self@.days_under_management,
    {
        self.days_under_management
    }
}

/// Parsing a line is deterministic: one line has one parse, and on success
/// the days under management are exactly the whole-day difference of the
/// two dates, negative when the end precedes the start.
pub proof fn lemma_parse_line_deterministic(s: Seq<char>, t1: TransactionView, t2: TransactionView)
    requires
        spec_parse_line(s) == Ok::<TransactionView, Seq<char>>(t1),
        spec_parse_line(s) == Ok::<TransactionView, Seq<char>>(t2),
    ensures
        t1 == t2,
        t1.days_under_management == t1.transaction_end_date.day_number
            - t1.transaction_start_date.day_number,
{
}

} // verus!
