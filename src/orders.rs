use vstd::prelude::*;
use vstd::string::StringExecFns;

verus! {

/// A request to place one order.
#[derive(Debug, Clone, PartialEq, Default)]
pub struct OrderRequest {
    pub order: Order,
}

/// A market order: signed units (the sign gives the direction) of an
/// instrument, fill-or-kill, with the default position fill.
#[derive(Debug, Clone, PartialEq, Default)]
pub struct Order {
    pub units: String,
    pub instrument: String,
    pub time_in_force: String,
    pub type_field: String,
    pub position_fill: String,
}

/// The server's answer to an order. Without a fill transaction the order did
/// not execute.
#[derive(Debug, Clone, PartialEq, Default)]
pub struct PostOrderResponse {
    pub last_transaction_id: String,
    pub order_create_transaction: Option<OrderCreateTransaction>,
    pub order_fill_transaction: Option<OrderFillTransaction>,
    pub related_transaction_ids: Option<Vec<String>>,
}

#[derive(Debug, Clone, PartialEq, Default)]
pub struct OrderCreateTransaction {
    pub account_id: String,
    pub batch_id: String,
    pub id: String,
    pub instrument: String,
    pub position_fill: String,
    pub reason: String,
    pub time: String,
    pub time_in_force: String,
    pub type_field: String,
    pub units: String,
    pub user_id: i64,
}

#[derive(Debug, Clone, PartialEq, Default)]
pub struct OrderFillTransaction {
    pub account_balance: String,
    pub account_id: String,
    pub batch_id: String,
    pub financing: String,
    pub id: String,
    pub instrument: String,
    pub order_id: String,
    pub pl: String,
    pub price: String,
    pub reason: String,
    pub time: String,
    pub trade_opened: Option<TradeOpened>,
    pub type_field: String,
    pub units: String,
    pub user_id: i64,
}

#[derive(Debug, Clone, PartialEq, Default)]
pub struct TradeOpened {
    pub trade_id: String,
    pub units: String,
}

/// The JSON string literal that stands for `s`, quotes and escapes included.
pub uninterp spec fn json_text(s: Seq<char>) -> Seq<char>;

/// Relies on `serde_json::to_string` to write a string as a JSON string
/// literal; writing a `str` cannot fail.
#[verifier::external_body]
fn json_quote(s: &str) -> (r: String)
    ensures
        r@ == json_text(s@),
{
    match serde_json::to_string(s) {
        Ok(t) => t,
        Err(_) => String::new(),
    }
}

/// The JSON body of an order request, its keys in wire spelling.
pub open spec fn order_json(o: Order) -> Seq<char> {
    "{\"order\":{\"units\":"@ + json_text(o.units@) + ",\"instrument\":"@ + json_text(
        o.instrument@,
    ) + ",\"timeInForce\":"@ + json_text(o.time_in_force@) + ",\"type\":"@ + json_text(
        o.type_field@,
    ) + ",\"positionFill\":"@ + json_text(o.position_fill@) + "}}"@
}

impl Order {
    /// A fill-or-kill market order with the default position fill.
    pub open spec fn is_market(&self, units: Seq<char>, instrument: Seq<char>) -> bool {
        &&& self.units@ == units
        &&& self.instrument@ == instrument
        &&& self.time_in_force@ == "FOK"@
        &&& self.type_field@ == "MARKET"@
        &&& self.position_fill@ == "DEFAULT"@
    }
}

impl OrderRequest {
    /// A market order for `units` of `instrument`.
    pub fn market(units: String, instrument: String) -> (r: Self)
        ensures
            r.order.is_market(units@, instrument@),
    {
        OrderRequest {
            order: Order {
                units: units,
                instrument: instrument,
                time_in_force: "FOK".to_owned(),
                type_field: "MARKET".to_owned(),
                position_fill: "DEFAULT".to_owned(),
            },
        }
    }

    /// A market order for `units` of `instrument`; the same as `market`.
    pub fn new_market(units: String, instrument: String) -> (r: Self)
        ensures
            r.order.is_market(units@, instrument@),
    {
        Self::market(units, instrument)
    }

    /// The request as the JSON body that the server takes.
    pub fn to_string(&self) -> (r: String)
        ensures
            r@ == order_json(self.order),
    {
        let o = &self.order;
        let mut r = "{\"order\":{\"units\":".to_owned();
        r.append(json_quote(o.units.as_str()).as_str());
        r.append(",\"instrument\":");
        r.append(json_quote(o.instrument.as_str()).as_str());
        r.append(",\"timeInForce\":");
        r.append(json_quote(o.time_in_force.as_str()).as_str());
        r.append(",\"type\":");
        r.append(json_quote(o.type_field.as_str()).as_str());
        r.append(",\"positionFill\":");
        r.append(json_quote(o.position_fill.as_str()).as_str());
        r.append("}}");
        r
    }
}

impl PostOrderResponse {
    /// Whether the order executed: the response holds a fill transaction.
    pub fn is_filled(&self) -> (r: bool)
        ensures
            r == self.order_fill_transaction is Some,
    {
        self.order_fill_transaction.is_some()
    }
}

} // verus!
