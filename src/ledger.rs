//! The ledger: the tracked assets and the snapshots of their values.
//!
//! A refresh evaluates the formulas that [`Assets::next_formula`] names, one
//! after the other, and hands the outcomes to [`Assets::fetch_data`]. That
//! commits one new snapshot if every evaluation succeeded and none
//! otherwise. Each refresh uses up a version number, committed or not, so
//! versions only grow.
use vstd::prelude::*;
use crate::formula::chars_of;
use crate::names::{compare_names, lemma_name_lt_asymmetric, lemma_name_lt_transitive, name_lt};
use crate::protocol::PluginType;
use crate::registry::PluginError;

verus! {

/// The largest value of the id and version counters.
pub const COUNTER_MAX: u64 = 0xffff_ffff_ffff_ffff;

/// A tracked asset: its identity and the two formulas that value it.
pub struct TrackedAsset {
    pub id: u64,
    pub name: String,
    pub category: String,
    pub price_query: String,
    pub holdings_query: String,
}

/// One asset's values in a snapshot, as binary64 bits.
#[derive(Clone, Copy, PartialEq, Eq, Structural, Debug)]
pub struct Row {
    pub asset_id: u64,
    pub price: u64,
    pub holdings: u64,
}

/// A committed snapshot: its version and one row per asset.
pub struct Update {
    pub version: u64,
    pub rows: Vec<Row>,
}

/// A listed asset: its identity joined with its values in the current
/// snapshot, as binary64 bits.
#[derive(Clone, Debug, PartialEq, Eq)]
pub struct Asset {
    pub id: u64,
    pub name: String,
    pub price: u64,
    pub holdings: u64,
    pub category: String,
}

/// The current values of the tracked assets, ordered by name.
#[derive(Clone, Debug, PartialEq, Eq)]
pub struct AssetsSnapshot {
    pub version: u64,
    pub assets: Vec<Asset>,
}

/// Why the ledger refused an operation.
#[derive(Clone, Debug, PartialEq, Eq)]
pub enum Error {
    /// No asset has that name.
    AssetNotFound,
    /// An asset of that name is tracked already.
    DuplicateAsset,
    /// No snapshot has been committed yet.
    NoSnapshot,
    /// The outcomes of a refresh do not cover every tracked asset.
    IncompleteRefresh,
    /// The id or version counter has reached its largest value.
    CounterExhausted,
    /// A formula could not be evaluated.
    PluginError(PluginError),
}

/// The outcome of evaluating one formula: its value as binary64 bits, or why
/// it has none.
pub type Evaluation = Result<u64, PluginError>;

/// The ledger as a mathematical value.
pub struct LedgerModel {
    pub assets: Seq<TrackedAsset>,
    pub updates: Seq<(u64, Seq<Row>)>,
    pub next_id: u64,
    pub next_version: u64,
}

pub open spec fn update_model(u: Update) -> (u64, Seq<Row>) {
    (u.version, u.rows@)
}

pub open spec fn update_models(us: Seq<Update>) -> Seq<(u64, Seq<Row>)> {
    us.map_values(|u: Update| update_model(u))
}

/// The ledger's invariant: assets strictly ordered by name, with distinct
/// ids below the next id; versions strictly increasing and below the next
/// version.
pub open spec fn ledger_wf(l: LedgerModel) -> bool {
    &&& forall|i: int, j: int|
        0 <= i < j < l.assets.len() ==> name_lt(l.assets[i].name@, l.assets[j].name@)
    &&& forall|i: int| 0 <= i < l.assets.len() ==> l.assets[i].id < l.next_id
    &&& forall|i: int, j: int|
        0 <= i < l.assets.len() && 0 <= j < l.assets.len() && i != j ==> l.assets[i].id
            != l.assets[j].id
    &&& forall|i: int, j: int| 0 <= i < j < l.updates.len() ==> l.updates[i].0 < l.updates[j].0
    &&& forall|i: int| 0 <= i < l.updates.len() ==> l.updates[i].0 < l.next_version
}

/// Some tracked asset has this name.
pub open spec fn tracks_name(l: LedgerModel, name: Seq<char>) -> bool {
    exists|i: int| 0 <= i < l.assets.len() && l.assets[i].name@ == name
}

/// The `k`-th formula that a refresh evaluates, with the capability it
/// expects: the price formula of an asset, then its holdings formula, asset
/// after asset in the ledger's order.
pub open spec fn formula_at(assets: Seq<TrackedAsset>, k: int) -> (Seq<char>, PluginType) {
    if k % 2 == 0 {
        (assets[k / 2].price_query@, PluginType::Price)
    } else {
        (assets[k / 2].holdings_query@, PluginType::Holdings)
    }
}

/// Some evaluation among `o` failed.
pub open spec fn has_fault(o: Seq<Evaluation>) -> bool {
    exists|i: int| 0 <= i < o.len() && o[i] is Err
}

/// `i` is the first evaluation that failed.
pub open spec fn is_first_fault(o: Seq<Evaluation>, i: int) -> bool {
    &&& 0 <= i < o.len()
    &&& o[i] is Err
    &&& forall|j: int| 0 <= j < i ==> o[j] is Ok
}

/// The rows of a snapshot made from the evaluations of the formulas of
/// `assets`, in the order of `formula_at`.
pub open spec fn rows_of(assets: Seq<TrackedAsset>, o: Seq<Evaluation>) -> Seq<Row> {
    Seq::new(
        assets.len(),
        |i: int| Row { asset_id: assets[i].id, price: o[2 * i]->Ok_0, holdings: o[2 * i + 1]->Ok_0 },
    )
}

/// The ledger after a refresh with outcomes `o`, and the result: the new
/// version, or why nothing was committed. A version is used up whenever
/// the counter allows one.
pub open spec fn refreshed(l: LedgerModel, o: Seq<Evaluation>) -> (LedgerModel, Result<u64, Error>) {
    if l.next_version == COUNTER_MAX {
        (l, Err(Error::CounterExhausted))
    } else {
        let burned = LedgerModel { next_version: (l.next_version + 1) as u64, ..l };
        if exists|i: int| is_first_fault(o, i) {
            let i = choose|i: int| is_first_fault(o, i);
            (burned, Err(Error::PluginError(o[i]->Err_0)))
        } else if o.len() != 2 * l.assets.len() {
            (burned, Err(Error::IncompleteRefresh))
        } else {
            (
                LedgerModel {
                    updates: l.updates.push((l.next_version, rows_of(l.assets, o))),
                    ..burned
                },
                Ok(l.next_version),
            )
        }
    }
}

/// A holdings amount that is exactly zero, of either sign.
pub open spec fn is_zero_amount(bits: u64) -> bool {
    bits == 0 || bits == 0x8000_0000_0000_0000
}

/// The last row of `rows` for asset `id`.
pub open spec fn find_row(rows: Seq<Row>, id: u64) -> Option<Row>
    decreases rows.len(),
{
    if rows.len() == 0 {
        None
    } else if rows.last().asset_id == id {
        Some(rows.last())
    } else {
        find_row(rows.drop_last(), id)
    }
}

/// The assets that have a row in `rows`, each with that row, in the order
/// of `assets`; without those whose holdings are zero where `skip_zero`.
pub open spec fn listing(assets: Seq<TrackedAsset>, rows: Seq<Row>, skip_zero: bool) -> Seq<
    (TrackedAsset, Row),
>
    decreases assets.len(),
{
    if assets.len() == 0 {
        Seq::empty()
    } else {
        let before = listing(assets.drop_last(), rows, skip_zero);
        match find_row(rows, assets.last().id) {
            Some(r) => if skip_zero && is_zero_amount(r.holdings) {
                before
            } else {
                before.push((assets.last(), r))
            },
            None => before,
        }
    }
}

/// `out` lists the asset and row of `entry`.
pub open spec fn lists(out: Asset, entry: (TrackedAsset, Row)) -> bool {
    &&& out.id == entry.0.id
    &&& out.name@ == entry.0.name@
    &&& out.category@ == entry.0.category@
    &&& out.price == entry.1.price
    &&& out.holdings == entry.1.holdings
}

/// `out` lists exactly the entries of `entries`, in order.
pub open spec fn lists_all(out: Seq<Asset>, entries: Seq<(TrackedAsset, Row)>) -> bool {
    &&& out.len() == entries.len()
    &&& forall|i: int| 0 <= i < out.len() ==> lists(out[i], entries[i])
}

/// The current snapshot of a ledger, as `list_assets` reports it.
pub open spec fn current(l: LedgerModel, skip_zero: bool) -> Option<(u64, Seq<(TrackedAsset, Row)>)> {
    if l.updates.len() == 0 {
        None
    } else {
        Some((l.updates.last().0, listing(l.assets, l.updates.last().1, skip_zero)))
    }
}

/// The tracked assets and the committed snapshots.
pub struct Assets {
    assets: Vec<TrackedAsset>,
    updates: Vec<Update>,
    next_id: u64,
    next_version: u64,
}

impl View for Assets {
    type V = LedgerModel;

    closed spec fn view(&self) -> LedgerModel {
        LedgerModel {
            assets: self.assets@,
            updates: update_models(self.updates@),
            next_id: self.next_id,
            next_version: self.next_version,
        }
    }
}

impl Assets {
    /// An empty ledger; ids and versions start at one.
    pub fn new() -> (r: Assets)
        ensures
            ledger_wf(r@),
            r@.assets.len() == 0,
            r@.updates.len() == 0,
            r@.next_id == 1,
            r@.next_version == 1,
    {
        Assets { assets: Vec::new(), updates: Vec::new(), next_id: 1, next_version: 1 }
    }

    /// The tracked assets, ordered by name.
    pub fn tracked_assets(&self) -> (r: &Vec<TrackedAsset>)
        ensures
            r@ == self@.assets,
    {
        &self.assets
    }

    /// The position at which `key` stands or would stand among the names.
    fn position_of(&self, key: &Vec<char>) -> (r: (usize, bool))
        requires
            ledger_wf(self@),
        ensures
            r.0 <= self@.assets.len(),
            forall|j: int| 0 <= j < r.0 ==> name_lt(self@.assets[j].name@, key@),
            r.1 ==> r.0 < self@.assets.len() && self@.assets[r.0 as int].name@ == key@,
            !r.1 ==> r.0 == self@.assets.len() || name_lt(
                key@,
                self@.assets[r.0 as int].name@,
            ),
    {
        let mut p: usize = 0;
        while p < self.assets.len()
            invariant_except_break
                p <= self.assets.len(),
                forall|j: int| 0 <= j < p ==> name_lt(self@.assets[j].name@, key@),
            ensures
                p <= self.assets.len(),
                forall|j: int| 0 <= j < p ==> name_lt(self@.assets[j].name@, key@),
                p == self.assets.len() || !name_lt(self@.assets[p as int].name@, key@),
            decreases self.assets.len() - p,
        {
            let c = compare_names(&chars_of(self.assets[p].name.as_str()), key);
            if c >= 0 {
                break;
            }
            p += 1;
        }
        if p == self.assets.len() {
            return (p, false);
        }
        let c = compare_names(&chars_of(self.assets[p].name.as_str()), key);
        (p, c == 0)
    }

    /// The tracked asset named `name`.
    pub fn asset(&self, name: &str) -> (r: Result<&TrackedAsset, Error>)
        requires
            ledger_wf(self@),
        ensures
            tracks_name(self@, name@) ==> (r matches Ok(a) && a.name@ == name@ && self@.assets.contains(
                *a,
            )),
            !tracks_name(self@, name@) ==> r == Err::<&TrackedAsset, Error>(Error::AssetNotFound),
    {
        let key = chars_of(name);
        let (p, found) = self.position_of(&key);
        if found {
            proof {
                assert(self@.assets[p as int] == self.assets[p as int]);
            }
            Ok(&self.assets[p])
        } else {
            proof {
                assert forall|j: int| 0 <= j < self@.assets.len() implies self@.assets[j].name@
                    != name@ by {
                    lemma_name_lt_asymmetric(name@, self@.assets[j].name@);
                    if j > p {
                        lemma_name_lt_transitive(
                            name@,
                            self@.assets[p as int].name@,
                            self@.assets[j].name@,
                        );
                    }
                }
            }
            Err(Error::AssetNotFound)
        }
    }

    /// Starts tracking an asset whose formulas were both evaluated once, as
    /// `price_check` and `holdings_check` report. It is refused if either
    /// evaluation failed (the price formula's fault first), if the name is
    /// tracked already, or if no id is left. The new asset gets the next id.
    pub fn add_asset(
        &mut self,
        name: &str,
        category: &str,
        price_query: &str,
        holdings_query: &str,
        price_check: Result<u64, PluginError>,
        holdings_check: Result<u64, PluginError>,
    ) -> (r: Result<u64, Error>)
        requires
            ledger_wf(old(self)@),
        ensures
            ledger_wf(final(self)@),
            price_check is Err ==> r == Err::<u64, Error>(
                Error::PluginError(price_check->Err_0),
            ),
            price_check is Ok && holdings_check is Err ==> r == Err::<u64, Error>(
                Error::PluginError(holdings_check->Err_0),
            ),
            price_check is Ok && holdings_check is Ok && tracks_name(old(self)@, name@) ==> r
                == Err::<u64, Error>(Error::DuplicateAsset),
            price_check is Ok && holdings_check is Ok && !tracks_name(old(self)@, name@)
                && old(self)@.next_id == COUNTER_MAX ==> r == Err::<u64, Error>(
                Error::CounterExhausted,
            ),
            r is Err ==> final(self)@ == old(self)@,
            price_check is Ok && holdings_check is Ok && !tracks_name(old(self)@, name@)
                && old(self)@.next_id < COUNTER_MAX ==> {
                &&& r == Ok::<u64, Error>(old(self)@.next_id)
                &&& final(self)@.next_id == old(self)@.next_id + 1
                &&& final(self)@.next_version == old(self)@.next_version
                &&& final(self)@.updates == old(self)@.updates
                &&& exists|p: int, a: TrackedAsset|
                    0 <= p <= old(self)@.assets.len() && final(self)@.assets == old(
                        self,
                    )@.assets.insert(p, a) && a.id == old(self)@.next_id && a.name@ == name@
                        && a.category@ == category@ && a.price_query@ == price_query@
                        && a.holdings_query@ == holdings_query@
            },
    {
        match price_check {
            Err(e) => {
                return Err(Error::PluginError(e));
            },
            Ok(_) => {},
        }
        match holdings_check {
            Err(e) => {
                return Err(Error::PluginError(e));
            },
            Ok(_) => {},
        }
        let key = chars_of(name);
        let (p, found) = self.position_of(&key);
        if found {
            return Err(Error::DuplicateAsset);
        }
        let ghost l = self@;
        proof {
            assert forall|j: int| 0 <= j < l.assets.len() implies l.assets[j].name@ != name@ by {
                lemma_name_lt_asymmetric(name@, l.assets[j].name@);
                if j >= p && j > p {
                    lemma_name_lt_transitive(name@, l.assets[p as int].name@, l.assets[j].name@);
                }
            }
        }
        if self.next_id == COUNTER_MAX {
            return Err(Error::CounterExhausted);
        }
        let id = self.next_id;
        let asset = TrackedAsset {
            id,
            name: name.to_owned(),
            category: category.to_owned(),
            price_query: price_query.to_owned(),
            holdings_query: holdings_query.to_owned(),
        };
        let ghost a = asset;
        self.assets.insert(p, asset);
        self.next_id = id + 1;
        proof {
            let s = l.assets;
            let t = self@.assets;
            assert(t == s.insert(p as int, a));
            assert forall|i: int, j: int| 0 <= i < j < t.len() implies name_lt(
                t[i].name@,
                t[j].name@,
            ) by {
                if j < p {
                } else if j == p {
                } else if i < p {
                    assert(t[j] == s[j - 1]);
                } else if i == p {
                    if j - 1 > p {
                        lemma_name_lt_transitive(name@, s[p as int].name@, s[j - 1].name@);
                    }
                } else {
                }
            }
            assert forall|i: int, j: int|
                0 <= i < t.len() && 0 <= j < t.len() && i != j implies t[i].id != t[j].id by {
                if i != p && j != p {
                    let i0 = if i < p { i } else { i - 1 };
                    let j0 = if j < p { j } else { j - 1 };
                    assert(t[i] == s[i0] && t[j] == s[j0]);
                } else if i == p {
                    let j0 = if j < p { j } else { j - 1 };
                    assert(t[j] == s[j0]);
                } else {
                    let i0 = if i < p { i } else { i - 1 };
                    assert(t[i] == s[i0]);
                }
            }
            assert forall|i: int| 0 <= i < t.len() implies t[i].id < self@.next_id by {
                if i < p {
                } else if i > p {
                    assert(t[i] == s[i - 1]);
                }
            }
            assert(self@.updates == l.updates);
        }
        Ok(id)
    }

    /// The formula that a refresh evaluates next, with the capability it
    /// expects, given the outcomes so far in the order of `formula_at`:
    /// none once one of them failed or every formula has been evaluated.
    pub fn next_formula<'a>(&'a self, done: &Vec<Evaluation>) -> (r: Option<(&'a String, PluginType)>)
        ensures
            has_fault(done@) || done@.len() >= 2 * self@.assets.len() ==> r is None,
            !has_fault(done@) && done@.len() < 2 * self@.assets.len() ==> (r matches Some(
                (f, t),
            ) && (f@, t) == formula_at(self@.assets, done@.len() as int)),
    {
        let mut k: usize = 0;
        while k < done.len()
            invariant
                k <= done.len(),
                forall|j: int| 0 <= j < k ==> done@[j] is Ok,
            decreases done.len() - k,
        {
            if done[k].is_err() {
                return None;
            }
            k += 1;
        }
        let n = done.len();
        if n / 2 >= self.assets.len() {
            return None;
        }
        let asset = &self.assets[n / 2];
        if n % 2 == 0 {
            Some((&asset.price_query, PluginType::Price))
        } else {
            Some((&asset.holdings_query, PluginType::Holdings))
        }
    }

    /// Commits a refresh. `outcomes` holds the evaluations of the formulas
    /// of the tracked assets, in the order of `formula_at`. A new version is
    /// used up; the snapshot under it is committed only if every formula was
    /// evaluated and every evaluation succeeded. Otherwise nothing is
    /// committed, and the first fault is returned.
    pub fn fetch_data(&mut self, outcomes: Vec<Evaluation>) -> (r: Result<u64, Error>)
        requires
            ledger_wf(old(self)@),
        ensures
            ledger_wf(final(self)@),
            (final(self)@, r) == refreshed(old(self)@, outcomes@),
    {
        if self.next_version == COUNTER_MAX {
            return Err(Error::CounterExhausted);
        }
        let version = self.next_version;
        let mut k: usize = 0;
        while k < outcomes.len()
            invariant_except_break
                self@ == old(self)@,
                version == self.next_version,
                version < COUNTER_MAX,
                k <= outcomes.len(),
                forall|j: int| 0 <= j < k ==> outcomes@[j] is Ok,
            ensures
                self@ == old(self)@,
                version == self.next_version,
                version < COUNTER_MAX,
                k <= outcomes.len(),
                forall|j: int| 0 <= j < k ==> outcomes@[j] is Ok,
                k < outcomes.len() ==> outcomes@[k as int] is Err,
            decreases outcomes.len() - k,
        {
            if outcomes[k].is_err() {
                break;
            }
            k += 1;
        }
        if k < outcomes.len() {
            let ghost l = self@;
            self.next_version = version + 1;
            assert(self@.assets == l.assets && self@.updates == l.updates);
            proof {
                assert(is_first_fault(outcomes@, k as int));
                let c = choose|i: int| is_first_fault(outcomes@, i);
                if c < k {
                    assert(outcomes@[c] is Ok);
                } else if c > k {
                    assert(outcomes@[k as int] is Ok);
                }
            }
            let mut rest = outcomes;
            return match rest.swap_remove(k) {
                Err(fault) => Err(Error::PluginError(fault)),
                Ok(_) => Err(Error::IncompleteRefresh),
            };
        }
        proof {
            if exists|i: int| is_first_fault(outcomes@, i) {
                let c = choose|i: int| is_first_fault(outcomes@, i);
                assert(outcomes@[c] is Ok);
            }
        }
        if outcomes.len() % 2 != 0 || outcomes.len() / 2 != self.assets.len() {
            self.next_version = version + 1;
            return Err(Error::IncompleteRefresh);
        }
        let mut rows: Vec<Row> = Vec::new();
        let mut i: usize = 0;
        while i < self.assets.len()
            invariant
                self@ == old(self)@,
                i <= self.assets.len(),
                outcomes.len() == 2 * self.assets.len(),
                forall|j: int| 0 <= j < outcomes.len() ==> outcomes@[j] is Ok,
                rows@ == rows_of(self.assets@, outcomes@).take(i as int),
            decreases self.assets.len() - i,
        {
            let price = match outcomes[2 * i] {
                Ok(v) => v,
                Err(_) => 0,
            };
            let holdings = match outcomes[2 * i + 1] {
                Ok(v) => v,
                Err(_) => 0,
            };
            rows.push(Row { asset_id: self.assets[i].id, price, holdings });
            assert(rows@ =~= rows_of(self.assets@, outcomes@).take(i + 1));
            i += 1;
        }
        let ghost before = self@;
        let ghost made = rows@;
        assert(made =~= rows_of(self.assets@, outcomes@));
        self.updates.push(Update { version, rows });
        self.next_version = version + 1;
        proof {
            assert(update_models(self.updates@) =~= before.updates.push((version, made)));
        }
        Ok(version)
    }

    /// The current snapshot: the rows of the latest committed version, each
    /// joined with its asset, ordered by name; without the assets whose
    /// holdings are zero where `skip_zero`. Fails if nothing was committed.
    pub fn list_assets(&self, skip_zero: bool) -> (r: Result<AssetsSnapshot, Error>)
        requires
            ledger_wf(self@),
        ensures
            match current(self@, skip_zero) {
                None => r == Err::<AssetsSnapshot, Error>(Error::NoSnapshot),
                Some((version, entries)) => r matches Ok(s) && s.version == version && lists_all(
                    s.assets@,
                    entries,
                ),
            },
    {
        if self.updates.len() == 0 {
            return Err(Error::NoSnapshot);
        }
        let last = self.updates.len() - 1;
        let rows = &self.updates[last].rows;
        proof {
            assert(update_models(self.updates@)[last as int] == update_model(self.updates@[last as int]));
        }
        let mut out: Vec<Asset> = Vec::new();
        let mut i: usize = 0;
        while i < self.assets.len()
            invariant
                i <= self.assets.len(),
                lists_all(out@, listing(self.assets@.take(i as int), rows@, skip_zero)),
            decreases self.assets.len() - i,
        {
            let ghost done = self.assets@.take(i as int);
            assert(self.assets@.take(i + 1).drop_last() =~= done);
            let asset = &self.assets[i];
            match row_for(rows, asset.id) {
                Some(row) => {
                    if !(skip_zero && (row.holdings == 0 || row.holdings == 0x8000_0000_0000_0000)) {
                        out.push(
                            Asset {
                                id: asset.id,
                                name: asset.name.clone(),
                                price: row.price,
                                holdings: row.holdings,
                                category: asset.category.clone(),
                            },
                        );
                    }
                },
                None => {},
            }
            i += 1;
        }
        assert(self.assets@.take(self.assets.len() as int) =~= self.assets@);
        Ok(AssetsSnapshot { version: self.updates[last].version, assets: out })
    }
}

/// A failed evaluation at `i` means some evaluation is the first to fail.
proof fn lemma_first_fault_exists(o: Seq<Evaluation>, i: int)
    requires
        0 <= i < o.len(),
        o[i] is Err,
    ensures
        exists|k: int| is_first_fault(o, k),
    decreases i,
{
    if forall|j: int| 0 <= j < i ==> o[j] is Ok {
        assert(is_first_fault(o, i));
    } else {
        let j = choose|j: int| 0 <= j < i && o[j] is Err;
        lemma_first_fault_exists(o, j);
    }
}

/// A refresh in which any evaluation fails commits nothing: the assets and
/// the snapshots stay as they were, so the current snapshot is the one from
/// before, and the refresh reports a fault.
pub proof fn lemma_refresh_atomic(l: LedgerModel, o: Seq<Evaluation>, i: int, skip_zero: bool)
    requires
        0 <= i < o.len(),
        o[i] is Err,
    ensures
        refreshed(l, o).0.assets == l.assets,
        refreshed(l, o).0.updates == l.updates,
        current(refreshed(l, o).0, skip_zero) == current(l, skip_zero),
        refreshed(l, o).1 is Err,
{
    lemma_first_fault_exists(o, i);
}

/// Two refreshes that both succeed commit strictly increasing versions, and
/// afterwards the current snapshot is the second one: its version, and the
/// rows that the second refresh made, and no others.
pub proof fn lemma_refresh_monotonic(
    l: LedgerModel,
    first: Seq<Evaluation>,
    second: Seq<Evaluation>,
    skip_zero: bool,
)
    requires
        refreshed(l, first).1 is Ok,
        refreshed(refreshed(l, first).0, second).1 is Ok,
    ensures
        ({
            let mid = refreshed(l, first).0;
            let after = refreshed(mid, second).0;
            let v1 = refreshed(l, first).1->Ok_0;
            let v2 = refreshed(mid, second).1->Ok_0;
            &&& v1 < v2
            &&& after.updates.last() == (v2, rows_of(mid.assets, second))
            &&& current(after, skip_zero) == Some(
                (v2, listing(after.assets, rows_of(mid.assets, second), skip_zero)),
            )
        }),
{
}

/// The last row of `rows` for asset `id`.
fn row_for(rows: &Vec<Row>, id: u64) -> (r: Option<Row>)
    ensures
        r == find_row(rows@, id),
{
    let mut k: usize = rows.len();
    assert(rows@.take(k as int) =~= rows@);
    while k > 0
        invariant
            k <= rows.len(),
            find_row(rows@, id) == find_row(rows@.take(k as int), id),
        decreases k,
    {
        assert(rows@.take(k as int).drop_last() =~= rows@.take(k - 1));
        if rows[k - 1].asset_id == id {
            return Some(rows[k - 1]);
        }
        k -= 1;
    }
    None
}

} // verus!
