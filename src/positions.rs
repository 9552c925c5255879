use vstd::prelude::*;

verus! {

/// The position in one instrument, with the server's last transaction id.
#[derive(Debug, Clone, PartialEq, Default)]
pub struct OnePosition {
    pub last_transaction_id: String,
    pub position: Position,
}

/// The open positions of an account, with the server's last transaction id.
#[derive(Debug, Clone, PartialEq, Default)]
pub struct Positions {
    pub last_transaction_id: String,
    pub positions: Vec<Position>,
}

/// The exposure in one instrument, as a long and a short leg.
#[derive(Debug, Clone, PartialEq, Default)]
pub struct Position {
    pub instrument: String,
    pub long: Long,
    pub pl: String,
    pub resettable_pl: String,
    pub short: Short,
    pub unrealized_pl: String,
}

#[derive(Debug, Clone, PartialEq, Default)]
pub struct Long {
    pub average_price: Option<String>,
    pub pl: String,
    pub resettable_pl: String,
    pub trade_ids: Option<Vec<String>>,
    pub units: String,
    pub unrealized_pl: String,
}

#[derive(Debug, Clone, PartialEq, Default)]
pub struct Short {
    pub average_price: Option<String>,
    pub pl: String,
    pub resettable_pl: String,
    pub trade_ids: Option<Vec<String>>,
    pub units: String,
    pub unrealized_pl: String,
}

/// Units, profit and loss all "0", no average price and no trades.
pub open spec fn empty_leg(
    average_price: Option<String>,
    pl: String,
    resettable_pl: String,
    trade_ids: Option<Vec<String>>,
    units: String,
    unrealized_pl: String,
) -> bool {
    &&& average_price is None
    &&& pl@ == "0"@
    &&& resettable_pl@ == "0"@
    &&& trade_ids is None
    &&& units@ == "0"@
    &&& unrealized_pl@ == "0"@
}

impl Long {
    pub open spec fn is_empty(&self) -> bool {
        empty_leg(
            self.average_price,
            self.pl,
            self.resettable_pl,
            self.trade_ids,
            self.units,
            self.unrealized_pl,
        )
    }

    /// A long leg with no exposure.
    pub fn empty() -> (r: Self)
        ensures
            r.is_empty(),
    {
        Long {
            average_price: None,
            pl: "0".to_owned(),
            resettable_pl: "0".to_owned(),
            trade_ids: None,
            units: "0".to_owned(),
            unrealized_pl: "0".to_owned(),
        }
    }
}

impl Short {
    pub open spec fn is_empty(&self) -> bool {
        empty_leg(
            self.average_price,
            self.pl,
            self.resettable_pl,
            self.trade_ids,
            self.units,
            self.unrealized_pl,
        )
    }

    /// A short leg with no exposure.
    pub fn empty() -> (r: Self)
        ensures
            r.is_empty(),
    {
        Short {
            average_price: None,
            pl: "0".to_owned(),
            resettable_pl: "0".to_owned(),
            trade_ids: None,
            units: "0".to_owned(),
            unrealized_pl: "0".to_owned(),
        }
    }
}

impl Position {
    /// No exposure in `instrument`: both legs empty, profit and loss "0".
    pub open spec fn is_empty_in(&self, instrument: Seq<char>) -> bool {
        &&& self.instrument@ == instrument
        &&& self.long.is_empty()
        &&& self.short.is_empty()
        &&& self.pl@ == "0"@
        &&& self.resettable_pl@ == "0"@
        &&& self.unrealized_pl@ == "0"@
    }

    /// A position with no exposure in `instrument`.
    pub fn empty(instrument: String) -> (r: Self)
        ensures
            r.is_empty_in(instrument@),
    {
        Position {
            instrument: instrument,
            long: Long::empty(),
            short: Short::empty(),
            pl: "0".to_owned(),
            resettable_pl: "0".to_owned(),
            unrealized_pl: "0".to_owned(),
        }
    }
}

impl OnePosition {
    /// An empty position in `instrument`, with an empty transaction id.
    pub fn new(instrument: String) -> (r: Self)
        ensures
            r.last_transaction_id@ == Seq::<char>::empty(),
            r.position.is_empty_in(instrument@),
    {
        OnePosition { last_transaction_id: String::new(), position: Position::empty(instrument) }
    }
}

} // verus!
