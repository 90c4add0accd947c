//! The asset registry: an immutable table mapping each symbol to the
//! metadata of a tradable instrument.  It is built once at startup and
//! read-only afterwards; symbols and ids are unique.

use vstd::prelude::*;
use crate::utils::str_eq;

verus! {

/// The class of a tradable instrument; only US equities are in scope.
#[derive(Clone, Copy, Debug, PartialEq, Eq, Structural)]
pub enum AssetClass {
    UsEquity,
}

impl Default for AssetClass {
    fn default() -> (r: Self)
        ensures
            r == AssetClass::UsEquity,
    {
        AssetClass::UsEquity
    }
}

/// The listing venue of an asset.
#[derive(Clone, Copy, Debug, PartialEq, Eq, Structural)]
pub enum Exchange {
    AMEX,
    ARCA,
    BATS,
    NYSE,
    NASDAQ,
    NYSEARCA,
    OTC,
}

/// Whether an asset is currently tradable at all.
#[derive(Clone, Copy, Debug, PartialEq, Eq, Structural)]
pub enum Status {
    Active,
    Inactive,
}

/// Stable identity and metadata of a tradable instrument.
#[derive(Clone, Debug)]
pub struct Asset {
    pub id: u64,
    pub class: AssetClass,
    pub exchange: Exchange,
    pub symbol: String,
    pub status: Status,
    pub tradable: bool,
    pub marginable: bool,
    pub shortable: bool,
    pub easy_to_borrow: bool,
}

impl Asset {
    /// Builds the default active NYSE equity for a symbol.
    pub fn from_symbol(symbol: &str, id: u64) -> (a: Asset)
        ensures
            a.id == id,
            a.class == AssetClass::UsEquity,
            a.exchange == Exchange::NYSE,
            a.symbol@ == symbol@,
            a.status == Status::Active,
            a.tradable,
            a.marginable,
            a.shortable,
            a.easy_to_borrow,
    {
        Asset {
            id,
            class: AssetClass::UsEquity,
            exchange: Exchange::NYSE,
            symbol: symbol.to_owned(),
            status: Status::Active,
            tradable: true,
            marginable: true,
            shortable: true,
            easy_to_borrow: true,
        }
    }
}

/// True when some asset in `assets` carries the symbol `sym`.
pub open spec fn asset_symbol_known(assets: Seq<Asset>, sym: Seq<char>) -> bool {
    exists|i: int| 0 <= i < assets.len() && assets[i].symbol@ == sym
}

/// The index of the asset with symbol `sym`, or -1 when there is none.
pub open spec fn asset_index(assets: Seq<Asset>, sym: Seq<char>) -> int
    decreases assets.len(),
{
    if assets.len() == 0 {
        -1
    } else if assets[0].symbol@ == sym {
        0
    } else {
        let r = asset_index(assets.drop_first(), sym);
        if r == -1 {
            -1
        } else {
            r + 1
        }
    }
}

/// `asset_index` finds the first asset with the symbol, and -1 means
/// absence.
pub proof fn lemma_asset_index(assets: Seq<Asset>, sym: Seq<char>)
    ensures
        asset_index(assets, sym) == -1 ==> forall|i: int|
            0 <= i < assets.len() ==> (#[trigger] assets[i]).symbol@ != sym,
        asset_index(assets, sym) != -1 ==> {
            &&& 0 <= asset_index(assets, sym) < assets.len()
            &&& assets[asset_index(assets, sym)].symbol@ == sym
            &&& forall|i: int|
                0 <= i < asset_index(assets, sym) ==> (#[trigger] assets[i]).symbol@ != sym
        },
        asset_symbol_known(assets, sym) <==> asset_index(assets, sym) != -1,
    decreases assets.len(),
{
    if assets.len() > 0 {
        let tail = assets.drop_first();
        lemma_asset_index(tail, sym);
        assert(forall|i: int| 1 <= i < assets.len() ==> (#[trigger] assets[i]) == tail[i - 1]);
        if assets[0].symbol@ != sym {
            let r = asset_index(tail, sym);
            if r == -1 {
                assert(forall|i: int|
                    0 <= i < assets.len() ==> (#[trigger] assets[i]).symbol@ != sym) by {
                    assert(forall|i: int|
                        1 <= i < assets.len() ==> (#[trigger] assets[i]).symbol@ == tail[i
                            - 1].symbol@);
                }
            } else {
                assert(assets[r + 1] == tail[r]);
                assert(forall|i: int|
                    0 <= i < r + 1 ==> (#[trigger] assets[i]).symbol@ != sym) by {
                    assert(forall|i: int|
                        1 <= i < assets.len() ==> (#[trigger] assets[i]).symbol@ == tail[i
                            - 1].symbol@);
                }
            }
        }
        if asset_symbol_known(assets, sym) && assets[0].symbol@ != sym {
            let w = choose|i: int| 0 <= i < assets.len() && assets[i].symbol@ == sym;
            assert(tail[w - 1].symbol@ == sym);
            assert(asset_symbol_known(tail, sym));
        }
        if asset_index(tail, sym) != -1 {
            assert(assets[asset_index(tail, sym) + 1].symbol@ == sym);
        }
    }
}

impl Asset {
    /// An owned copy with the same field values.
    pub fn clone_asset(&self) -> (r: Asset)
        ensures
            r == *self,
    {
        Asset {
            id: self.id,
            class: self.class,
            exchange: self.exchange,
            symbol: self.symbol.clone(),
            status: self.status,
            tradable: self.tradable,
            marginable: self.marginable,
            shortable: self.shortable,
            easy_to_borrow: self.easy_to_borrow,
        }
    }
}

/// The registry of assets, keyed by symbol and by id.
pub struct AssetManager {
    pub assets: Vec<Asset>,
}

impl AssetManager {
    /// Symbols and ids are pairwise distinct.
    pub open spec fn wf(&self) -> bool {
        &&& forall|i: int, j: int|
            0 <= i < j < self.assets@.len() ==> self.assets@[i].symbol@ != self.assets@[j].symbol@
        &&& forall|i: int, j: int|
            0 <= i < j < self.assets@.len() ==> self.assets@[i].id != self.assets@[j].id
    }

    /// An empty registry.
    pub fn new() -> (r: AssetManager)
        ensures
            r.wf(),
            r.assets@.len() == 0,
    {
        AssetManager { assets: Vec::new() }
    }

    /// Replaces the registry with one default asset per symbol, with ids
    /// assigned in order.
    pub fn set_assets(&mut self, symbols: &Vec<String>)
        requires
            forall|i: int, j: int|
                0 <= i < j < symbols@.len() ==> symbols@[i]@ != symbols@[j]@,
        ensures
            final(self).wf(),
            final(self).assets@.len() == symbols@.len(),
            forall|i: int|
                0 <= i < symbols@.len() ==> {
                    &&& (#[trigger] final(self).assets@[i]).symbol@ == symbols@[i]@
                    &&& final(self).assets@[i].id == i
                    &&& final(self).assets@[i].status == Status::Active
                    &&& final(self).assets@[i].class == AssetClass::UsEquity
                },
    {
        let mut assets: Vec<Asset> = Vec::new();
        let n = symbols.len();
        let mut i: usize = 0;
        while i < n
            invariant
                0 <= i <= n,
                n == symbols@.len(),
                assets@.len() == i,
                forall|k: int, l: int| 0 <= k < l < symbols@.len() ==> symbols@[k]@ != symbols@[l]@,
                forall|k: int|
                    0 <= k < i ==> {
                        &&& (#[trigger] assets@[k]).symbol@ == symbols@[k]@
                        &&& assets@[k].id == k
                        &&& assets@[k].status == Status::Active
                        &&& assets@[k].class == AssetClass::UsEquity
                    },
            decreases n - i,
        {
            let a = Asset::from_symbol(symbols[i].as_str(), i as u64);
            assets.push(a);
            i = i + 1;
        }
        self.assets = assets;
    }

    /// All registered assets, in id order.
    pub fn get_assets(&self) -> (r: &Vec<Asset>)
        ensures
            r == &self.assets,
    {
        &self.assets
    }

    /// Looks an asset up by its symbol.
    pub fn get_asset_by_symbol(&self, symbol: &str) -> (r: Option<&Asset>)
        ensures
            match r {
                Some(a) => {
                    &&& a.symbol@ == symbol@
                    &&& exists|i: int|
                        0 <= i < self.assets@.len() && self.assets@[i] == *a
                },
                None => !asset_symbol_known(self.assets@, symbol@),
            },
    {
        let n = self.assets.len();
        let mut i: usize = 0;
        while i < n
            invariant
                0 <= i <= n,
                n == self.assets@.len(),
                forall|j: int| 0 <= j < i ==> (#[trigger] self.assets@[j]).symbol@ != symbol@,
            decreases n - i,
        {
            if str_eq(self.assets[i].symbol.as_str(), symbol) {
                return Some(&self.assets[i]);
            }
            i = i + 1;
        }
        None
    }

    /// Looks an asset up by its id.
    pub fn get_asset_by_id(&self, id: u64) -> (r: Option<&Asset>)
        ensures
            match r {
                Some(a) => {
                    &&& a.id == id
                    &&& exists|i: int|
                        0 <= i < self.assets@.len() && self.assets@[i] == *a
                },
                None => forall|i: int| 0 <= i < self.assets@.len() ==> (#[trigger] self.assets@[i]).id != id,
            },
    {
        let n = self.assets.len();
        let mut i: usize = 0;
        while i < n
            invariant
                0 <= i <= n,
                n == self.assets@.len(),
                forall|j: int| 0 <= j < i ==> (#[trigger] self.assets@[j]).id != id,
            decreases n - i,
        {
            if self.assets[i].id == id {
                return Some(&self.assets[i]);
            }
            i = i + 1;
        }
        None
    }
}

} // verus!
