//! Account balances, keyed by address (the hex of a public key).

use vstd::hash_map::StringHashMap;
use vstd::prelude::*;

verus! {

/// The balance of `address` in `balances`: zero for an unknown address.
pub open spec fn spec_balance(balances: Map<Seq<char>, u64>, address: Seq<char>) -> u64 {
    if balances.contains_key(address) {
        balances[address]
    } else {
        0
    }
}

/// Whether a transfer of `amount` plus `fee` can be carried out without the
/// arithmetic leaving `u64`: the sender holds at least `amount + fee`, and
/// neither the receiver nor the miner overflows.
pub open spec fn spec_transfer_fits(
    balances: Map<Seq<char>, u64>,
    from: Seq<char>,
    to: Seq<char>,
    amount: u64,
    fee: u64,
    miner: Seq<char>,
) -> bool {
    &&& spec_balance(balances, from) >= amount + fee
    &&& spec_balance(balances, to) + amount <= u64::MAX
    &&& spec_balance(balances, miner) + fee <= u64::MAX
}

/// The balances after a transfer. All three balances are read first; then the
/// sender, the receiver and the miner are written in that order, so where two
/// of the addresses coincide the later write wins.
pub open spec fn spec_transfer(
    balances: Map<Seq<char>, u64>,
    from: Seq<char>,
    to: Seq<char>,
    amount: u64,
    fee: u64,
    miner: Seq<char>,
) -> Map<Seq<char>, u64> {
    let from_balance = spec_balance(balances, from);
    let to_balance = spec_balance(balances, to);
    let miner_balance = spec_balance(balances, miner);
    balances.insert(from, (from_balance - amount - fee) as u64).insert(
        to,
        (to_balance + amount) as u64,
    ).insert(miner, (miner_balance + fee) as u64)
}

/// The address order after `address` receives a balance: unchanged for a
/// known address, extended by it for a new one.
pub open spec fn spec_order_insert(order: Seq<Seq<char>>, address: Seq<char>) -> Seq<Seq<char>> {
    if order.contains(address) {
        order
    } else {
        order.push(address)
    }
}

/// A balance that has just been set is read back, and no other address's
/// balance changes.
pub proof fn lemma_balance_after_set(
    balances: Map<Seq<char>, u64>,
    address: Seq<char>,
    balance: u64,
    other: Seq<char>,
)
    ensures
        spec_balance(balances.insert(address, balance), address) == balance,
        other != address ==> spec_balance(balances.insert(address, balance), other) == spec_balance(
            balances,
            other,
        ),
{
}

/// Between three different addresses a transfer moves `amount` from the
/// sender to the receiver and `fee` from the sender to the miner, leaves every
/// other balance alone, and keeps the sum of the three balances.
pub proof fn lemma_transfer_between_distinct(
    balances: Map<Seq<char>, u64>,
    from: Seq<char>,
    to: Seq<char>,
    amount: u64,
    fee: u64,
    miner: Seq<char>,
    other: Seq<char>,
)
    requires
        spec_transfer_fits(balances, from, to, amount, fee, miner),
        from != to,
        from != miner,
        to != miner,
    ensures
        spec_balance(spec_transfer(balances, from, to, amount, fee, miner), from) == spec_balance(
            balances,
            from,
        ) - amount - fee,
        spec_balance(spec_transfer(balances, from, to, amount, fee, miner), to) == spec_balance(
            balances,
            to,
        ) + amount,
        spec_balance(spec_transfer(balances, from, to, amount, fee, miner), miner) == spec_balance(
            balances,
            miner,
        ) + fee,
        other != from && other != to && other != miner ==> spec_balance(
            spec_transfer(balances, from, to, amount, fee, miner),
            other,
        ) == spec_balance(balances, other),
        spec_balance(spec_transfer(balances, from, to, amount, fee, miner), from) + spec_balance(
            spec_transfer(balances, from, to, amount, fee, miner),
            to,
        ) + spec_balance(spec_transfer(balances, from, to, amount, fee, miner), miner)
            == spec_balance(balances, from) + spec_balance(balances, to) + spec_balance(
            balances,
            miner,
        ),
{
}

/// Balances by address. A simplified ledger: one number per address.
pub struct AccountManager {
    accounts: StringHashMap<u64>,
    /// Every address of `accounts`, once each, in the order it first appeared.
    addresses: Vec<String>,
}

impl View for AccountManager {
    type V = Map<Seq<char>, u64>;

    open spec fn view(&self) -> Map<Seq<char>, u64> {
        self.balances()
    }
}

impl AccountManager {
    /// The balances, by address.
    pub closed spec fn balances(&self) -> Map<Seq<char>, u64> {
        self.accounts@
    }

    /// The addresses in the order in which they first received a balance.
    pub closed spec fn address_order(&self) -> Seq<Seq<char>> {
        self.addresses@.map_values(|s: String| s@)
    }

    /// The list of addresses holds each address of the map exactly once.
    pub closed spec fn wf(&self) -> bool {
        &&& self.address_order().no_duplicates()
        &&& forall|a: Seq<char>| #[trigger]
            self.accounts@.contains_key(a) <==> self.address_order().contains(a)
    }

    /// An empty ledger.
    pub fn new() -> (res: Self)
        ensures
            res.wf(),
            res@ == Map::<Seq<char>, u64>::empty(),
            res.address_order() == Seq::<Seq<char>>::empty(),
    {
        let res = AccountManager { accounts: StringHashMap::new(), addresses: Vec::new() };
        assert(res.address_order() =~= Seq::<Seq<char>>::empty());
        res
    }

    /// Sets the balance of `address`, creating the account if it is new.
    pub fn set_balance(&mut self, address: &str, balance: u64)
        requires
            old(self).wf(),
        ensures
            final(self).wf(),
            final(self)@ == old(self)@.insert(address@, balance),
            final(self).address_order() == spec_order_insert(old(self).address_order(), address@),
    {
        if !self.accounts.contains_key(address) {
            let ghost before = self.address_order();
            self.addresses.push(address.to_owned());
            assert(self.address_order() =~= before.push(address@));
        }
        let ghost views = self.address_order();
        self.accounts.insert(address.to_owned(), balance);
        assert forall|a: Seq<char>| #[trigger]
            self.accounts@.contains_key(a) <==> self.address_order().contains(a) by {
            if a == address@ {
                assert(views.contains(address@)) by {
                    if old(self).accounts@.contains_key(address@) {
                        assert(old(self).address_order().contains(address@));
                    } else {
                        assert(views[views.len() - 1] == address@);
                    }
                }
            } else {
                if old(self).accounts@.contains_key(a) {
                    assert(old(self).address_order().contains(a));
                    let i = choose|i: int|
                        0 <= i < old(self).address_order().len() && old(
                            self,
                        ).address_order()[i] == a;
                    assert(views[i] == a);
                }
                if views.contains(a) {
                    let i = choose|i: int| 0 <= i < views.len() && views[i] == a;
                    if i < old(self).address_order().len() {
                        assert(old(self).address_order()[i] == a);
                    }
                }
            }
        }
    }

    /// The balance of `address`; zero for an address with no account.
    pub fn get_balance(&self, address: &str) -> (res: u64)
        ensures
            res == spec_balance(self@, address@),
    {
        match self.accounts.get(address) {
            Some(balance) => *balance,
            None => 0,
        }
    }

    /// Moves `amount` from `from` to `to` and `fee` from `from` to `miner_addr`,
    /// with no check beyond what the arithmetic needs.
    pub fn transfer(&mut self, from: &str, to: &str, amount: u64, fee: u64, miner_addr: &str)
        requires
            old(self).wf(),
            spec_transfer_fits(old(self)@, from@, to@, amount, fee, miner_addr@),
        ensures
            final(self).wf(),
            final(self)@ == spec_transfer(old(self)@, from@, to@, amount, fee, miner_addr@),
            final(self).address_order() == spec_order_insert(
                spec_order_insert(spec_order_insert(old(self).address_order(), from@), to@),
                miner_addr@,
            ),
    {
        let miner_balance = self.get_balance(miner_addr);
        let from_balance = self.get_balance(from);
        let to_balance = self.get_balance(to);
        self.set_balance(from, from_balance - amount - fee);
        self.set_balance(to, to_balance + amount);
        self.set_balance(miner_addr, miner_balance + fee);
    }

    /// Whether `address` has an account holding at least `amount`.
    pub fn has_sufficient_balance(&self, address: &str, amount: u64) -> (res: bool)
        ensures
            res == (self@.contains_key(address@) && self@[address@] >= amount),
    {
        self.accounts.contains_key(address) && self.get_balance(address) >= amount
    }

    /// Every account with its balance, each address once, in the order in which
    /// the addresses first received a balance.
    pub fn entries(&self) -> (res: Vec<(String, u64)>)
        requires
            self.wf(),
        ensures
            res@.len() == self@.len(),
            res@.len() == self.address_order().len(),
            forall|i: int| 0 <= i < res@.len() ==> #[trigger] res@[i].0@ == self.address_order()[i],
            forall|i: int|
                0 <= i < res@.len() ==> self@.contains_key(#[trigger] res@[i].0@) && self@[res@[i].0@]
                    == res@[i].1,
            forall|i: int, j: int|
                0 <= i < j < res@.len() ==> #[trigger] res@[i].0@ != #[trigger] res@[j].0@,
            forall|a: Seq<char>|
                #[trigger] self@.contains_key(a) ==> exists|i: int|
                    0 <= i < res@.len() && #[trigger] res@[i].0@ == a,
    {
        let mut res: Vec<(String, u64)> = Vec::new();
        let n = self.addresses.len();
        let mut i: usize = 0;
        while i < n
            invariant
                self.wf(),
                n == self.addresses@.len(),
                i <= n,
                res@.len() == i,
                forall|k: int|
                    0 <= k < i ==> #[trigger] res@[k].0@ == self.address_order()[k]
                        && self@.contains_key(res@[k].0@) && self@[res@[k].0@] == res@[k].1,
            decreases n - i,
        {
            let address = self.addresses[i].clone();
            assert(self.address_order()[i as int] == address@);
            assert(self.address_order().contains(address@));
            let balance = self.get_balance(address.as_str());
            res.push((address, balance));
            i = i + 1;
        }
        proof {
            let views = self.address_order();
            assert forall|a: Seq<char>| #[trigger] self@.contains_key(a) implies exists|k: int|
                0 <= k < res@.len() && #[trigger] res@[k].0@ == a by {
                assert(views.contains(a));
                let k = choose|k: int| 0 <= k < views.len() && views[k] == a;
                assert(res@[k].0@ == a);
            }
            assert forall|k: int, j: int| 0 <= k < j < res@.len() implies #[trigger] res@[k].0@
                != #[trigger] res@[j].0@ by {
                assert(views[k] != views[j]);
            }
            views.unique_seq_to_set();
            assert(views.to_set() =~= self@.dom()) by {
                assert forall|a: Seq<char>| views.to_set().contains(a) <==> self@.dom().contains(a) by {
                    if views.to_set().contains(a) {
                        assert(views.contains(a));
                    }
                }
            }
        }
        res
    }
}

} // verus!
