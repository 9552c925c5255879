use vstd::prelude::*;
use vstd::string::StringExecFns;

use crate::instruments::{by_name, Instrument, InstrumentCache, Instruments};

verus! {

/// Names joined with commas, in order.
pub open spec fn comma_joined(names: Seq<String>) -> Seq<char>
    decreases names.len(),
{
    if names.len() == 0 {
        Seq::empty()
    } else if names.len() == 1 {
        names[0]@
    } else {
        comma_joined(names.drop_last()) + ","@ + names.last()@
    }
}

/// The root of an account's resources under a base url.
pub open spec fn account_root(url: Seq<char>, account: Seq<char>) -> Seq<char> {
    url + "/v3/accounts/"@ + account
}

/// What a client needs to address an account, and the instruments that it has
/// fetched so far.
pub struct Client {
    token: String,
    url: String,
    account: String,
    pub instruments: InstrumentCache,
}

impl Client {
    pub closed spec fn token_text(&self) -> Seq<char> {
        self.token@
    }

    pub closed spec fn url_text(&self) -> Seq<char> {
        self.url@
    }

    pub closed spec fn account_text(&self) -> Seq<char> {
        self.account@
    }

    pub open spec fn root(&self) -> Seq<char> {
        account_root(self.url_text(), self.account_text())
    }

    /// The instruments held, by name.
    pub closed spec fn cache(&self) -> Map<Seq<char>, Instrument> {
        self.instruments@
    }

    pub closed spec fn wf(&self) -> bool {
        self.instruments.wf()
    }

    /// A client of `account` under the base `url`, with the bearer `token`,
    /// and no instrument fetched yet.
    pub fn new(url: String, account: String, token: String) -> (r: Client)
        ensures
            r.wf(),
            r.url_text() == url@,
            r.account_text() == account@,
            r.token_text() == token@,
            r.cache() == Map::<Seq<char>, Instrument>::empty(),
    {
        Client { token: token, url: url, account: account, instruments: InstrumentCache::new() }
    }

    /// The bearer token that authenticates each request.
    pub fn token(&self) -> (r: &str)
        ensures
            r@ == self.token_text(),
    {
        self.token.as_str()
    }

    fn path(&self, tail: &str) -> (r: String)
        ensures
            r@ == self.root() + tail@,
    {
        let mut r = self.url.clone();
        r.append("/v3/accounts/");
        r.append(self.account.as_str());
        r.append(tail);
        r
    }

    /// Where all instruments are fetched.
    pub fn instruments_url(&self) -> (r: String)
        ensures
            r@ == self.root() + "/instruments"@,
    {
        self.path("/instruments")
    }

    /// Where the instruments named in `names` are fetched.
    pub fn instruments_from_url(&self, names: &Vec<String>) -> (r: String)
        ensures
            r@ == self.root() + "/instruments?instruments="@ + comma_joined(names@),
    {
        let mut r = self.path("/instruments?instruments=");
        let ghost start = r@;
        let mut i: usize = 0;
        while i < names.len()
            invariant
                i <= names@.len(),
                start == self.root() + "/instruments?instruments="@,
                r@ == start + comma_joined(names@.take(i as int)),
            decreases names@.len() - i,
        {
            if i > 0 {
                r.append(",");
            }
            r.append(names[i].as_str());
            proof {
                let t = names@.take(i + 1);
                assert(t.drop_last() =~= names@.take(i as int));
                assert(t.last() == names@[i as int]);
                if i == 0 {
                    assert(comma_joined(names@.take(0)) == Seq::<char>::empty());
                    assert(r@ =~= start + comma_joined(t));
                } else {
                    assert(r@ =~= start + comma_joined(t));
                }
            }
            i = i + 1;
        }
        proof {
            assert(names@.take(names@.len() as int) =~= names@);
        }
        r
    }

    /// Where the current price of `instrument` is fetched.
    pub fn pricing_url(&self, instrument: &str) -> (r: String)
        ensures
            r@ == self.root() + "/pricing?instruments="@ + instrument@,
    {
        let mut r = self.path("/pricing?instruments=");
        r.append(instrument);
        r
    }

    /// Where the position in `instrument` is fetched.
    pub fn position_url(&self, instrument: &str) -> (r: String)
        ensures
            r@ == self.root() + "/positions/"@ + instrument@,
    {
        let mut r = self.path("/positions/");
        r.append(instrument);
        r
    }

    /// Where the open positions are fetched.
    pub fn open_positions_url(&self) -> (r: String)
        ensures
            r@ == self.root() + "/openPositions"@,
    {
        self.path("/openPositions")
    }

    /// Where orders are posted.
    pub fn orders_url(&self) -> (r: String)
        ensures
            r@ == self.root() + "/orders"@,
    {
        self.path("/orders")
    }

    /// Takes the outcome of an instruments fetch: on success every instrument
    /// is held in the cache under its name, in place of what was there; the
    /// outcome is handed back as it came.
    pub fn store_instruments(&mut self, fetched: Option<Instruments>) -> (r: Option<Instruments>)
        requires
            old(self).wf(),
        ensures
            final(self).wf(),
            r == fetched,
            final(self).url_text() == old(self).url_text(),
            final(self).account_text() == old(self).account_text(),
            final(self).token_text() == old(self).token_text(),
            match fetched {
                Some(f) => final(self).cache() == old(self).cache().union_prefer_right(
                    by_name(f.instruments@),
                ),
                None => final(self).cache() == old(self).cache(),
            },
    {
        match &fetched {
            Some(f) => {
                self.instruments.merge(&f.instruments);
            },
            None => {},
        }
        fetched
    }
}

} // verus!
