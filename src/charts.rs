use vstd::prelude::*;
use crate::date::{Date, DateValue};
use crate::registry::{ChartType, Statistic};

verus! {

/// Source query of the new verified contracts per day, over the whole history.
pub const NEW_VERIFIED_CONTRACTS_FULL: &'static str = "SELECT
    DATE(b.timestamp) as date,
    COUNT(*)::TEXT as value
FROM transactions t
JOIN blocks       b ON b.hash = t.block_hash
JOIN addresses    a ON t.created_contract_address_hash = a.hash
WHERE
    LENGTH(t.created_contract_address_hash) > 0 AND
    b.consensus = true AND
    a.verified = true
GROUP BY DATE(b.timestamp)";

/// Source query of the new verified contracts per day, for the days strictly
/// after the date bound to `$1`.
pub const NEW_VERIFIED_CONTRACTS_AFTER: &'static str = "SELECT
    DATE(b.timestamp) as date,
    COUNT(*)::TEXT as value
FROM transactions t
JOIN blocks       b ON b.hash = t.block_hash
JOIN addresses    a ON t.created_contract_address_hash = a.hash
WHERE
    LENGTH(t.created_contract_address_hash) > 0 AND
    b.consensus = true AND
    a.verified = true AND
    DATE(b.timestamp) > $1
GROUP BY DATE(b.timestamp)";

/// A query for the source database: its text and the date bound to `$1`, if any.
pub struct SourceQuery {
    pub sql: &'static str,
    pub after: Option<Date>,
}

/// The daily number of contracts that were created and then verified.
#[derive(Default, Debug)]
pub struct NewVerifiedContracts {}

impl NewVerifiedContracts {
    pub fn name(&self) -> (r: &'static str)
        ensures
            r@ == "newVerifiedContracts"@,
    {
        proof {
            reveal_strlit("newVerifiedContracts");
        }
        "newVerifiedContracts"
    }

    pub fn chart_type(&self) -> (r: ChartType)
        ensures
            r == ChartType::Line,
    {
        ChartType::Line
    }

    /// The statistic's registry entry.
    pub fn statistic(&self) -> (r: Statistic)
        ensures
            r.name@ == "newVerifiedContracts"@,
            r.kind == ChartType::Line,
    {
        Statistic { name: self.name().to_owned(), kind: self.chart_type() }
    }

    /// The query that fetches the values after the last persisted row: the
    /// whole history when there is none, else the days strictly after its date.
    pub fn values_query(&self, last_row: Option<&DateValue>) -> (r: SourceQuery)
        ensures
            match last_row {
                Some(row) => r.after == Some(row.date) && r.sql == NEW_VERIFIED_CONTRACTS_AFTER,
                None => r.after.is_none() && r.sql == NEW_VERIFIED_CONTRACTS_FULL,
            },
    {
        match last_row {
            Some(row) => SourceQuery { sql: NEW_VERIFIED_CONTRACTS_AFTER, after: Some(row.date) },
            None => SourceQuery { sql: NEW_VERIFIED_CONTRACTS_FULL, after: None },
        }
    }
}

} // verus!
