use vstd::prelude::*;

verus! {

/// A list of instruments, with the server's last transaction id.
#[derive(Debug, Clone, PartialEq, Default)]
pub struct Instruments {
    pub instruments: Vec<Instrument>,
    pub last_transaction_id: String,
}

/// The static definition of one instrument; `name` is its key.
#[derive(Debug, Clone, PartialEq, Default)]
pub struct Instrument {
    pub display_name: String,
    pub display_precision: i64,
    pub margin_rate: String,
    pub maximum_order_units: String,
    pub maximum_position_size: String,
    pub maximum_trailing_stop_distance: String,
    pub minimum_trade_size: String,
    pub minimum_trailing_stop_distance: String,
    pub name: String,
    pub pip_location: i64,
    pub trade_units_precision: i64,
    pub type_field: String,
}

impl Instrument {
    /// A field by field copy.
    pub fn copy(&self) -> (r: Instrument)
        ensures
            r == *self,
    {
        Instrument {
            display_name: self.display_name.clone(),
            display_precision: self.display_precision,
            margin_rate: self.margin_rate.clone(),
            maximum_order_units: self.maximum_order_units.clone(),
            maximum_position_size: self.maximum_position_size.clone(),
            maximum_trailing_stop_distance: self.maximum_trailing_stop_distance.clone(),
            minimum_trade_size: self.minimum_trade_size.clone(),
            minimum_trailing_stop_distance: self.minimum_trailing_stop_distance.clone(),
            name: self.name.clone(),
            pip_location: self.pip_location,
            trade_units_precision: self.trade_units_precision,
            type_field: self.type_field.clone(),
        }
    }
}

/// Instruments keyed by name; of two with one name, the later one counts.
pub open spec fn by_name(s: Seq<Instrument>) -> Map<Seq<char>, Instrument>
    decreases s.len(),
{
    if s.len() == 0 {
        Map::empty()
    } else {
        by_name(s.drop_last()).insert(s.last().name@, s.last())
    }
}

/// The keys of `by_name(s)` are the names in `s`.
pub proof fn lemma_by_name_keys(s: Seq<Instrument>, k: Seq<char>)
    ensures
        by_name(s).contains_key(k) <==> exists|i: int| 0 <= i < s.len() && (#[trigger] s[i]).name@ == k,
    decreases s.len(),
{
    if s.len() > 0 {
        let p = s.drop_last();
        lemma_by_name_keys(p, k);
        if by_name(p).contains_key(k) {
            let i = choose|i: int| 0 <= i < p.len() && (#[trigger] p[i]).name@ == k;
            assert(s[i] == p[i]);
        }
        if exists|i: int| 0 <= i < s.len() && (#[trigger] s[i]).name@ == k {
            let i = choose|i: int| 0 <= i < s.len() && (#[trigger] s[i]).name@ == k;
            if i < s.len() - 1 {
                assert(p[i] == s[i]);
            }
        }
    }
}

/// The instruments that a client has fetched, by name. Grows or is updated by
/// each fetch; never shrinks.
pub struct InstrumentCache {
    entries: Vec<Instrument>,
    contents: Ghost<Map<Seq<char>, Instrument>>,
}

impl View for InstrumentCache {
    type V = Map<Seq<char>, Instrument>;

    closed spec fn view(&self) -> Map<Seq<char>, Instrument> {
        self.contents@
    }
}

impl InstrumentCache {
    /// The entries have distinct names, and are exactly what the map holds.
    pub closed spec fn wf(&self) -> bool {
        &&& forall|i: int, j: int|
            0 <= i < j < self.entries@.len() ==> (#[trigger] self.entries@[i]).name@
                != (#[trigger] self.entries@[j]).name@
        &&& forall|i: int|
            0 <= i < self.entries@.len() ==> self.contents@.contains_key(
                (#[trigger] self.entries@[i]).name@,
            ) && self.contents@[self.entries@[i].name@] == self.entries@[i]
        &&& forall|k: Seq<char>|
            #[trigger] self.contents@.contains_key(k) ==> exists|i: int|
                0 <= i < self.entries@.len() && (#[trigger] self.entries@[i]).name@ == k
    }

    /// An empty cache.
    pub fn new() -> (r: InstrumentCache)
        ensures
            r.wf(),
            r@ == Map::<Seq<char>, Instrument>::empty(),
    {
        InstrumentCache { entries: Vec::new(), contents: Ghost(Map::empty()) }
    }

    /// The number of distinct names held.
    pub fn len(&self) -> (r: usize)
        requires
            self.wf(),
        ensures
            r == self@.dom().len(),
    {
        proof {
            self.lemma_size();
        }
        self.entries.len()
    }

    proof fn lemma_size(&self)
        requires
            self.wf(),
        ensures
            self.entries@.len() == self@.dom().len(),
    {
        let names = self.entries@.map_values(|e: Instrument| e.name@);
        assert forall|i: int, j: int| 0 <= i < j < names.len() implies names[i] != names[j] by {
            assert(self.entries@[i].name@ != self.entries@[j].name@);
        }
        names.unique_seq_to_set();
        assert(names.to_set() =~= self@.dom()) by {
            assert forall|k: Seq<char>| names.to_set().contains(k) <==> self@.dom().contains(k) by {
                if self@.dom().contains(k) {
                    let i = choose|i: int|
                        0 <= i < self.entries@.len() && (#[trigger] self.entries@[i]).name@ == k;
                    assert(names[i] == k);
                }
                if names.to_set().contains(k) {
                    let i = choose|i: int| 0 <= i < names.len() && names[i] == k;
                    assert(self.entries@[i].name@ == k);
                }
            }
        }
    }

    /// The instrument held under `name`.
    pub fn get(&self, name: &str) -> (r: Option<&Instrument>)
        requires
            self.wf(),
        ensures
            r is Some <==> self@.contains_key(name@),
            r matches Some(i) ==> *i == self@[name@],
    {
        let key = name.to_owned();
        let mut i: usize = 0;
        while i < self.entries.len()
            invariant
                self.wf(),
                key@ == name@,
                i <= self.entries@.len(),
                forall|j: int| 0 <= j < i ==> (#[trigger] self.entries@[j]).name@ != key@,
            decreases self.entries@.len() - i,
        {
            if self.entries[i].name == key {
                return Some(&self.entries[i]);
            }
            i = i + 1;
        }
        None
    }

    /// Holds `inst` under its name, in place of what was there.
    pub fn insert(&mut self, inst: Instrument)
        requires
            old(self).wf(),
        ensures
            final(self).wf(),
            final(self)@ == old(self)@.insert(inst.name@, inst),
    {
        let ghost before = self.entries@;
        let ghost key = inst.name@;
        let mut i: usize = 0;
        while i < self.entries.len()
            invariant
                self.wf(),
                self.entries@ == before,
                self.contents@ == old(self).contents@,
                key == inst.name@,
                i <= self.entries@.len(),
                forall|j: int| 0 <= j < i ==> (#[trigger] self.entries@[j]).name@ != key,
            decreases self.entries@.len() - i,
        {
            if self.entries[i].name == inst.name {
                self.entries.set(i, inst);
                self.contents = Ghost(self.contents@.insert(key, inst));
                proof {
                    assert forall|k: Seq<char>| #[trigger] self.contents@.contains_key(k) implies exists|
                        j: int,
                    | 0 <= j < self.entries@.len() && (#[trigger] self.entries@[j]).name@ == k by {
                        if k == key {
                            assert(self.entries@[i as int].name@ == k);
                        } else {
                            let j = choose|j: int|
                                0 <= j < before.len() && (#[trigger] before[j]).name@ == k;
                            assert(self.entries@[j].name@ == k);
                        }
                    }
                    assert forall|a: int, b: int|
                        0 <= a < b < self.entries@.len() implies (#[trigger] self.entries@[a]).name@
                        != (#[trigger] self.entries@[b]).name@ by {
                        assert(before[a].name@ != before[b].name@);
                    }
                    assert forall|a: int|
                        0 <= a < self.entries@.len() implies self.contents@.contains_key(
                        (#[trigger] self.entries@[a]).name@,
                    ) && self.contents@[self.entries@[a].name@] == self.entries@[a] by {
                        if a != i {
                            assert(before[a].name@ != before[i as int].name@);
                        }
                    }
                }
                return;
            }
            i = i + 1;
        }
        self.entries.push(inst);
        self.contents = Ghost(self.contents@.insert(key, inst));
        proof {
            assert forall|k: Seq<char>| #[trigger] self.contents@.contains_key(k) implies exists|j: int|
                0 <= j < self.entries@.len() && (#[trigger] self.entries@[j]).name@ == k by {
                if k == key {
                    assert(self.entries@[before.len() as int].name@ == k);
                } else {
                    let j = choose|j: int| 0 <= j < before.len() && (#[trigger] before[j]).name@ == k;
                    assert(self.entries@[j].name@ == k);
                }
            }
            assert forall|a: int, b: int|
                0 <= a < b < self.entries@.len() implies (#[trigger] self.entries@[a]).name@
                != (#[trigger] self.entries@[b]).name@ by {
                if b < before.len() {
                    assert(before[a].name@ != before[b].name@);
                } else {
                    assert(before[a].name@ != key);
                }
            }
            assert forall|a: int|
                0 <= a < self.entries@.len() implies self.contents@.contains_key(
                (#[trigger] self.entries@[a]).name@,
            ) && self.contents@[self.entries@[a].name@] == self.entries@[a] by {
                if a < before.len() {
                    assert(before[a].name@ != key);
                    assert(self.entries@[a] == before[a]);
                }
            }
        }
    }

    /// Holds each of `list` under its name, in order: the later of two with
    /// one name stays.
    pub fn merge(&mut self, list: &Vec<Instrument>)
        requires
            old(self).wf(),
        ensures
            final(self).wf(),
            final(self)@ == old(self)@.union_prefer_right(by_name(list@)),
    {
        let mut i: usize = 0;
        while i < list.len()
            invariant
                self.wf(),
                i <= list@.len(),
                self@ == old(self)@.union_prefer_right(by_name(list@.take(i as int))),
            decreases list@.len() - i,
        {
            let ghost m = old(self)@.union_prefer_right(by_name(list@.take(i as int)));
            let inst = list[i].copy();
            self.insert(inst);
            proof {
                let t = list@.take(i + 1);
                assert(t.drop_last() =~= list@.take(i as int));
                assert(t.last() == list@[i as int]);
                assert(self@ =~= old(self)@.union_prefer_right(by_name(t)));
            }
            i = i + 1;
        }
        proof {
            assert(list@.take(list@.len() as int) =~= list@);
        }
    }
}

/// Two fetches, of `first` and then of `second`: every name of either is held
/// afterwards, with the data of the later fetch where both have it, and
/// nothing held before is lost.
pub proof fn lemma_two_fetches(
    before: Map<Seq<char>, Instrument>,
    first: Seq<Instrument>,
    second: Seq<Instrument>,
    k: Seq<char>,
)
    ensures
        ({
            let after = before.union_prefer_right(by_name(first)).union_prefer_right(
                by_name(second),
            );
            &&& after.contains_key(k) <==> (before.contains_key(k) || (exists|i: int|
                0 <= i < first.len() && (#[trigger] first[i]).name@ == k) || (exists|i: int|
                0 <= i < second.len() && (#[trigger] second[i]).name@ == k))
            &&& by_name(second).contains_key(k) ==> after[k] == by_name(second)[k]
                && after[k].name@ == k
            &&& (!by_name(second).contains_key(k) && by_name(first).contains_key(k)) ==> after[k]
                == by_name(first)[k] && after[k].name@ == k
        }),
{
    lemma_by_name_keys(first, k);
    lemma_by_name_keys(second, k);
    lemma_by_name_value(first, k);
    lemma_by_name_value(second, k);
}

/// What `by_name(s)` holds under a name has that name.
pub proof fn lemma_by_name_value(s: Seq<Instrument>, k: Seq<char>)
    ensures
        by_name(s).contains_key(k) ==> by_name(s)[k].name@ == k,
    decreases s.len(),
{
    if s.len() > 0 {
        lemma_by_name_value(s.drop_last(), k);
    }
}

} // verus!
