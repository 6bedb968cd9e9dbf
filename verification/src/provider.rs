//! The market-data providers that a download can name.
use vstd::prelude::*;

use crate::text::same;

verus! {

#[derive(Debug, Clone, Copy, PartialEq, Eq, Structural)]
pub enum ProviderKind {
    Ibkr,
    Databento,
    Polygon,
    ThetaData,
}

impl ProviderKind {
    /// The token of a provider.
    pub open spec fn token(self) -> Seq<char> {
        match self {
            ProviderKind::Ibkr => "ibkr"@,
            ProviderKind::Databento => "databento"@,
            ProviderKind::Polygon => "polygon"@,
            ProviderKind::ThetaData => "thetadata"@,
        }
    }

    /// The provider that a token names.
    pub open spec fn named(value: Seq<char>) -> Option<ProviderKind> {
        if value == "ibkr"@ {
            Some(ProviderKind::Ibkr)
        } else if value == "databento"@ {
            Some(ProviderKind::Databento)
        } else if value == "polygon"@ {
            Some(ProviderKind::Polygon)
        } else if value == "thetadata"@ {
            Some(ProviderKind::ThetaData)
        } else {
            None
        }
    }

    /// The provider that a token names. Tokens are lowercase, so the stock symbol `IBKR` does not
    /// conflict with the `ibkr` token.
    pub fn from_token(value: &str) -> (r: Option<ProviderKind>)
        ensures
            r == ProviderKind::named(value@),
    {
        if same(value, "ibkr") {
            Some(ProviderKind::Ibkr)
        } else if same(value, "databento") {
            Some(ProviderKind::Databento)
        } else if same(value, "polygon") {
            Some(ProviderKind::Polygon)
        } else if same(value, "thetadata") {
            Some(ProviderKind::ThetaData)
        } else {
            None
        }
    }
}

/// What a download does after a failed request that can be recovered from.
#[derive(Debug, Clone, Copy, PartialEq, Eq, Structural)]
pub enum RecoveryAction {
    /// Issue the request again, from the unchanged cursor.
    Retry,
    /// Rebuild the client of a generation first.
    Reconnect { generation: u64 },
}

} // verus!
