use crate::cashmap::{as_map, collides, key_hash, lemma_inserted_as_map, lemma_len_counts_keys};
use crate::cashmap::{position_of, stored_keys, CashMap};
use crate::errors::ContractError;
use crate::utils::address_to_bytes;
use crate::validator_set::address_views;
use std::collections::HashMap;
use vstd::prelude::*;
use vstd::std_specs::hash::*;

verus! {

broadcast use vstd::std_specs::hash::group_hash_axioms;

/// A redemption that waits for its window to mature: the window it was
/// made in and the native coin it is worth.
#[derive(Debug, Clone, Copy, PartialEq, Eq, Structural)]
pub struct WaitingWithdraw {
    pub id: u64,
    pub amount: u128,
}

/// The redemptions of one user, at most one for each window.
#[derive(Debug, Clone, PartialEq, Eq)]
pub struct UserWithdraws(pub Vec<WaitingWithdraw>);

impl View for UserWithdraws {
    type V = Seq<WaitingWithdraw>;

    open spec fn view(&self) -> Seq<WaitingWithdraw> {
        self.0@
    }
}

/// The key under which the records of an address are filed: the UTF-8
/// encoding of the address.
pub open spec fn user_key(address: Seq<char>) -> Seq<u8> {
    vstd::utf8::encode_utf8(address)
}

/// The first position at which a list holds a record for `window`.
pub open spec fn window_position(list: Seq<WaitingWithdraw>, window: u64) -> Option<int> {
    if exists|i: int| 0 <= i < list.len() && (#[trigger] list[i]).id == window {
        Some(
            choose|i: int|
                0 <= i < list.len() && (#[trigger] list[i]).id == window && forall|j: int|
                    0 <= j < i ==> (#[trigger] list[j]).id != window,
        )
    } else {
        None
    }
}

/// No window has two records in the list.
pub open spec fn unique_windows(list: Seq<WaitingWithdraw>) -> bool {
    forall|i: int, j: int|
        0 <= i < list.len() && 0 <= j < list.len() && i != j ==> (#[trigger] list[i]).id != (
        #[trigger] list[j]).id
}

/// The list after `amount` was redeemed in `window`: a record that the
/// window already has grows by the amount, otherwise a new record is
/// added at the end.
pub open spec fn merged(list: Seq<WaitingWithdraw>, window: u64, amount: u128) -> Seq<
    WaitingWithdraw,
> {
    match window_position(list, window) {
        Some(i) => list.update(
            i,
            WaitingWithdraw { id: window, amount: (list[i].amount + amount) as u128 },
        ),
        None => list.push(WaitingWithdraw { id: window, amount }),
    }
}

/// The records of a list that belong to `window`, in order.
pub open spec fn taken(list: Seq<WaitingWithdraw>, window: u64) -> Seq<WaitingWithdraw>
    decreases list.len(),
{
    if list.len() == 0 {
        list
    } else if list.last().id == window {
        taken(list.drop_last(), window).push(list.last())
    } else {
        taken(list.drop_last(), window)
    }
}

/// The records of a list that do not belong to `window`, in order.
pub open spec fn kept(list: Seq<WaitingWithdraw>, window: u64) -> Seq<WaitingWithdraw>
    decreases list.len(),
{
    if list.len() == 0 {
        list
    } else if list.last().id == window {
        kept(list.drop_last(), window)
    } else {
        kept(list.drop_last(), window).push(list.last())
    }
}

/// The last `count` addresses of a list, last first: the order in which
/// they are popped.
pub open spec fn popped(list: Seq<Seq<char>>, count: nat) -> Seq<Seq<char>>
    recommends
        count <= list.len(),
{
    Seq::new(count, |i: int| list[list.len() - 1 - i])
}

/// The first position at which a list holds `address`.
pub open spec fn address_position(list: Seq<Seq<char>>, address: Seq<char>) -> Option<int> {
    if exists|i: int| 0 <= i < list.len() && #[trigger] list[i] == address {
        Some(
            choose|i: int|
                0 <= i < list.len() && #[trigger] list[i] == address && forall|j: int|
                    0 <= j < i ==> #[trigger] list[j] != address,
        )
    } else {
        None
    }
}

/// The list of withdrawers after `address` was taken off: the last
/// address leaves the list and, unless it is the one that was asked for,
/// takes the place where that one was first listed.
pub open spec fn without_address(list: Seq<Seq<char>>, address: Seq<char>) -> Seq<Seq<char>> {
    match address_position(list, address) {
        Some(p) => if list.last() == address {
            list.drop_last()
        } else {
            list.update(p, list.last()).drop_last()
        },
        None => list,
    }
}

/// What the withdrawal records say: the redemptions of every user, the
/// withdrawers of every window, the time at which each closed window
/// matures, and the oldest window that may still hold claims.
pub struct WithdrawStoreView {
    /// The redemptions of a user, under the key of the user's address.
    pub users: Map<Seq<u8>, Seq<WaitingWithdraw>>,
    /// The addresses with a redemption in a window.
    pub withdrawers: Map<u64, Seq<Seq<char>>>,
    /// The time from which the redemptions of a window can be claimed.
    pub claim_times: Map<u64, u64>,
    /// The oldest window whose withdrawers were not all paid yet.
    pub active_withdraw_window: u64,
}

impl WithdrawStoreView {
    /// The redemptions of a user; none where the user has no record.
    pub open spec fn withdraws_of(self, key: Seq<u8>) -> Seq<WaitingWithdraw> {
        if self.users.contains_key(key) {
            self.users[key]
        } else {
            Seq::empty()
        }
    }

    /// The withdrawers of a window; none where the window has no index.
    pub open spec fn withdrawers_of(self, window: u64) -> Seq<Seq<char>> {
        if self.withdrawers.contains_key(window) {
            self.withdrawers[window]
        } else {
            Seq::empty()
        }
    }

    /// Another user whose key has the hash of `key` has records, so `key`
    /// cannot be filed.
    pub open spec fn collides(self, key: Seq<u8>) -> bool {
        exists|other: Seq<u8>| #[trigger]
            self.users.contains_key(other) && other != key && key_hash(other) == key_hash(key)
    }

    /// Why the redemptions of the user with `key` cannot be filed, if
    /// they cannot: the key collides with that of another user, or the
    /// user is new and the store is full.
    pub open spec fn user_refused(self, key: Seq<u8>) -> Option<ContractError> {
        if self.collides(key) {
            Some(ContractError::HashCollision)
        } else if !self.users.contains_key(key) && self.users.dom().len() >= u32::MAX {
            Some(ContractError::CapacityExceeded)
        } else {
            None
        }
    }

    /// The records with other redemptions for one user.
    pub open spec fn with_user(self, key: Seq<u8>, list: Seq<WaitingWithdraw>) -> WithdrawStoreView {
        WithdrawStoreView { users: self.users.insert(key, list), ..self }
    }

    /// The records with `address` listed as a withdrawer of `window`; an
    /// address that is already listed is not listed again.
    pub open spec fn indexed(self, window: u64, address: Seq<char>) -> WithdrawStoreView {
        if self.withdrawers_of(window).contains(address) {
            self
        } else {
            self.with_withdrawers(window, self.withdrawers_of(window).push(address))
        }
    }

    /// The records with another list of withdrawers for one window.
    pub open spec fn with_withdrawers(self, window: u64, list: Seq<Seq<char>>) -> WithdrawStoreView {
        WithdrawStoreView { withdrawers: self.withdrawers.insert(window, list), ..self }
    }
}

/// The withdrawal records of the contract: every user's redemptions in an
/// indexed store, the withdrawers of every window, the claim time of
/// every closed window, and the oldest window that may still hold claims.
pub struct WithdrawStore {
    user_withdraws: CashMap<UserWithdraws>,
    withdrawers: HashMap<u64, Vec<String>>,
    claim_times: HashMap<u64, u64>,
    active_withdraw_window: u64,
}

impl View for WithdrawStore {
    type V = WithdrawStoreView;

    closed spec fn view(&self) -> WithdrawStoreView {
        WithdrawStoreView {
            users: Map::new(
                |key: Seq<u8>| as_map(self.user_withdraws@).contains_key(key),
                |key: Seq<u8>| as_map(self.user_withdraws@)[key]@,
            ),
            withdrawers: Map::new(
                |w: u64| self.withdrawers@.contains_key(w),
                |w: u64| address_views(self.withdrawers@[w]@),
            ),
            claim_times: self.claim_times@,
            active_withdraw_window: self.active_withdraw_window,
        }
    }
}

/// The name under which the redemptions of the users are filed.
pub const USER_WITHDRAWS: [u8; 11] = [87, 73, 84, 72, 68, 82, 65, 87, 69, 82, 83];

impl WithdrawStore {
    /// The indexed store of the users' redemptions is well formed.
    pub closed spec fn wf(&self) -> bool {
        self.user_withdraws.wf()
    }

    /// Records without users, withdrawers or claim times, with window
    /// zero as the oldest window.
    pub fn new() -> (store: Self)
        ensures
            store.wf(),
            store@.users == Map::<Seq<u8>, Seq<WaitingWithdraw>>::empty(),
            store@.withdrawers == Map::<u64, Seq<Seq<char>>>::empty(),
            store@.claim_times == Map::<u64, u64>::empty(),
            store@.active_withdraw_window == 0,
    {
        let name = USER_WITHDRAWS;
        let store = WithdrawStore {
            user_withdraws: CashMap::init(name.as_slice()),
            withdrawers: HashMap::new(),
            claim_times: HashMap::new(),
            active_withdraw_window: 0,
        };
        assert(store@.users =~= Map::<Seq<u8>, Seq<WaitingWithdraw>>::empty()) by {
            assert forall|key: Seq<u8>| !as_map(store.user_withdraws@).contains_key(key) by {
                assert(position_of(store.user_withdraws@, key) is None);
            }
        }
        assert(store@.withdrawers =~= Map::<u64, Seq<Seq<char>>>::empty());
        store
    }

    /// The store holds as many users as its indexed store has entries,
    /// never more than positions can address, and a key collides with
    /// the users exactly if it collides in the indexed store.
    pub proof fn lemma_users_counted(&self, key: Seq<u8>)
        requires
            self.wf(),
        ensures
            self@.users.dom().finite(),
            self@.users.dom().len() == self.spec_users_len(),
            self@.users.dom().len() <= u32::MAX,
            self@.users.contains_key(key) <==> self.spec_files(key),
            self@.collides(key) <==> self.spec_collides(key),
            self@.users.contains_key(key) ==> !self@.collides(key),
    {
        lemma_len_counts_keys(self.user_withdraws);
        self.user_withdraws.lemma_wf_view();
        let s = self.user_withdraws@;
        assert(self@.users.dom() =~= stored_keys(s));
        if self@.collides(key) {
            let other = choose|other: Seq<u8>| #[trigger]
                self@.users.contains_key(other) && other != key && key_hash(other) == key_hash(
                    key,
                );
            let i = position_of(s, other)->0;
            assert(s[i].0 == other);
        }
        if collides(s, key) {
            let i = choose|i: int|
                0 <= i < s.len() && (#[trigger] s[i]).0 != key && key_hash(s[i].0) == key_hash(key);
            assert(position_of(s, s[i].0) is Some);
            assert(self@.users.contains_key(s[i].0));
        }
        if self@.users.contains_key(key) && collides(s, key) {
            let i = choose|i: int|
                0 <= i < s.len() && (#[trigger] s[i]).0 != key && key_hash(s[i].0) == key_hash(key);
            let j = position_of(s, key)->0;
            assert(s[j].0 == key);
            assert(key_hash(s[i].0) == key_hash(s[j].0));
        }
    }

    /// Number of entries of the indexed store of the users.
    pub closed spec fn spec_users_len(&self) -> nat {
        self.user_withdraws@.len()
    }

    /// Whether the indexed store of the users files a key.
    pub closed spec fn spec_files(&self, key: Seq<u8>) -> bool {
        position_of(self.user_withdraws@, key) is Some
    }

    /// Whether a key collides with one that the indexed store of the
    /// users files.
    pub closed spec fn spec_collides(&self, key: Seq<u8>) -> bool {
        collides(self.user_withdraws@, key)
    }

    /// The indexed store that holds the users' redemptions.
    pub fn user_withdraws(&self) -> (users: &CashMap<UserWithdraws>)
        requires
            self.wf(),
        ensures
            users.wf(),
            forall|key: Seq<u8>|
                as_map(users@).contains_key(key) <==> #[trigger] self@.users.contains_key(key),
            forall|key: Seq<u8>|
                as_map(users@).contains_key(key) ==> (#[trigger] as_map(users@)[key])@
                    == self@.users[key],
    {
        &self.user_withdraws
    }

    /// The time from which the redemptions of `window` can be claimed.
    pub fn get_claim_time(&self, window: u64) -> (time: Option<u64>)
        ensures
            match time {
                Some(t) => self@.claim_times.contains_key(window) && self@.claim_times[window]
                    == t,
                None => !self@.claim_times.contains_key(window),
            },
    {
        match self.claim_times.get(&window) {
            Some(t) => Some(*t),
            None => None,
        }
    }

    /// Fixes the time from which the redemptions of `window` can be
    /// claimed.
    pub fn set_claim_time(&mut self, window: u64, time: u64)
        requires
            old(self).wf(),
        ensures
            final(self).wf(),
            final(self)@ == (WithdrawStoreView {
                claim_times: old(self)@.claim_times.insert(window, time),
                ..old(self)@
            }),
    {
        self.claim_times.insert(window, time);
        assert(self@.users =~= old(self)@.users);
        assert(self@.withdrawers =~= old(self)@.withdrawers);
    }

    /// The oldest window whose withdrawers were not all paid yet.
    pub fn get_active_withdraw_window(&self) -> (window: u64)
        ensures
            window == self@.active_withdraw_window,
    {
        self.active_withdraw_window
    }

    /// Moves the pointer to the oldest window that may still hold claims.
    pub fn set_active_withdraw_window(&mut self, window: u64)
        requires
            old(self).wf(),
        ensures
            final(self).wf(),
            final(self)@ == (WithdrawStoreView { active_withdraw_window: window, ..old(self)@ }),
    {
        self.active_withdraw_window = window;
        assert(self@.users =~= old(self)@.users);
        assert(self@.withdrawers =~= old(self)@.withdrawers);
    }

    /// The redemptions of a user, oldest first; none where the user has
    /// no record.
    pub fn all_waiting_withdraws_for_user(&self, address: &String) -> (list: Vec<WaitingWithdraw>)
        requires
            self.wf(),
        ensures
            list@ == self@.withdraws_of(user_key(address@)),
    {
        match self.user_withdraws.get(address_to_bytes(address)) {
            Some(withdraws) => copy_withdraws(&withdraws.0),
            None => Vec::new(),
        }
    }

    /// Files the redemptions of a user. A user whose key collides with
    /// that of another user is rejected, and so is a new user once the
    /// store is full; neither changes anything.
    pub fn set_withdraws_for_user(&mut self, address: &String, list: Vec<WaitingWithdraw>) -> (done:
        Result<(), ContractError>)
        requires
            old(self).wf(),
        ensures
            final(self).wf(),
            match done {
                Ok(()) => old(self)@.user_refused(user_key(address@)) is None && final(self)@
                    == old(self)@.with_user(user_key(address@), list@),
                Err(e) => old(self)@.user_refused(user_key(address@)) == Some(e) && final(self)@
                    == old(self)@,
            },
    {
        let ghost before = self.user_withdraws@;
        let ghost key = user_key(address@);
        proof {
            self.user_withdraws.lemma_wf_view();
            self.lemma_users_counted(key);
            if !collides(before, key) {
                lemma_inserted_as_map(before, key, UserWithdraws(list));
            }
        }
        let done = self.user_withdraws.insert(address_to_bytes(address), UserWithdraws(list));
        proof {
            if done is Ok {
                assert(self@.users =~= old(self)@.users.insert(key, list@));
            } else {
                assert(self@.users =~= old(self)@.users);
            }
            assert(self@.withdrawers =~= old(self)@.withdrawers);
        }
        done
    }

    /// Takes the redemption of a user for one window out of the records
    /// and returns what it is worth. A user without a redemption for the
    /// window is left as is. A user with more than one is an error.
    pub fn get_withdraw_for_user(&mut self, address: &String, window: u64) -> (coins: Result<
        Option<u128>,
        ContractError,
    >)
        requires
            old(self).wf(),
        ensures
            final(self).wf(),
            ({
                let key = user_key(address@);
                let list = old(self)@.withdraws_of(key);
                let found = taken(list, window);
                match coins {
                    Ok(Some(amount)) => found.len() == 1 && amount == found[0].amount && final(self)@ == old(self)@.with_user(key, kept(list, window)),
                    Ok(None) => found.len() == 0 && final(self)@ == old(self)@,
                    Err(e) => e == ContractError::DuplicateWithdraw && found.len() > 1 && final(self)@ == old(self)@,
                }
            }),
    {
        let windows = self.all_waiting_withdraws_for_user(address);
        let ghost list = windows@;
        let mut rest: Vec<WaitingWithdraw> = Vec::new();
        let mut withdraw: Vec<WaitingWithdraw> = Vec::new();
        let mut i: usize = 0;
        assert(list.take(0) =~= Seq::<WaitingWithdraw>::empty());
        while i < windows.len()
            invariant
                i <= windows@.len(),
                list == windows@,
                withdraw@ == taken(list.take(i as int), window),
                rest@ == kept(list.take(i as int), window),
            decreases windows@.len() - i,
        {
            proof {
                assert(list.take(i + 1).drop_last() =~= list.take(i as int));
                assert(list.take(i + 1).last() == list[i as int]);
            }
            let entry = windows[i];
            if entry.id == window {
                withdraw.push(entry);
            } else {
                rest.push(entry);
            }
            i = i + 1;
        }
        assert(list.take(i as int) =~= list);
        if withdraw.len() == 0 {
            return Ok(None);
        }
        if withdraw.len() > 1 {
            return Err(ContractError::DuplicateWithdraw);
        }
        let amount = withdraw[0].amount;
        proof {
            // a user with a record is filed, so filing again cannot fail
            self.lemma_users_counted(user_key(address@));
            assert(self@.users.contains_key(user_key(address@)));
        }
        match self.set_withdraws_for_user(address, rest) {
            Ok(()) => Ok(Some(amount)),
            Err(e) => Err(e),
        }
    }
}

/// A copy of a list of redemptions.
pub fn copy_withdraws(list: &Vec<WaitingWithdraw>) -> (copy: Vec<WaitingWithdraw>)
    ensures
        copy@ == list@,
{
    let mut copy: Vec<WaitingWithdraw> = Vec::new();
    let mut i: usize = 0;
    while i < list.len()
        invariant
            i <= list@.len(),
            copy@ == list@.take(i as int),
        decreases list@.len() - i,
    {
        copy.push(list[i]);
        assert(copy@ =~= list@.take(i + 1));
        i = i + 1;
    }
    assert(list@.take(i as int) =~= list@);
    copy
}

impl UserWithdraws {
    /// The first position at which the user has a record for `window_id`.
    pub fn position(&self, window_id: &u64) -> (found: Option<usize>)
        ensures
            match found {
                Some(i) => window_position(self@, *window_id) == Some(i as int),
                None => window_position(self@, *window_id) is None,
            },
    {
        find_window(&self.0, *window_id)
    }
}

/// The first position at which a list holds a record for `window`.
pub fn find_window(list: &Vec<WaitingWithdraw>, window: u64) -> (found: Option<usize>)
    ensures
        match found {
            Some(i) => window_position(list@, window) == Some(i as int) && i < list@.len()
                && list@[i as int].id == window,
            None => window_position(list@, window) is None,
        },
{
    let mut i: usize = 0;
    while i < list.len()
        invariant
            i <= list@.len(),
            forall|j: int| 0 <= j < i ==> (#[trigger] list@[j]).id != window,
        decreases list@.len() - i,
    {
        if list[i].id == window {
            proof {
                let found = window_position(list@, window)->0;
                if found < i {
                    assert(list@[found].id != window);
                }
            }
            return Some(i);
        }
        i = i + 1;
    }
    proof {
        if window_position(list@, window) is Some {
            let k = choose|k: int| 0 <= k < list@.len() && (#[trigger] list@[k]).id == window;
            assert(list@[k].id != window);
        }
    }
    None
}

/// The first position at which a list holds `address`.
pub fn find_address(list: &Vec<String>, address: &String) -> (found: Option<usize>)
    ensures
        match found {
            Some(i) => address_position(address_views(list@), address@) == Some(i as int) && i
                < list@.len() && list@[i as int]@ == address@,
            None => address_position(address_views(list@), address@) is None,
        },
{
    let ghost views = address_views(list@);
    let mut i: usize = 0;
    while i < list.len()
        invariant
            i <= list@.len(),
            views == address_views(list@),
            forall|j: int| 0 <= j < i ==> #[trigger] views[j] != address@,
        decreases list@.len() - i,
    {
        if list[i] == *address {
            proof {
                assert(views[i as int] == address@);
                let found = address_position(views, address@)->0;
                if found < i {
                    assert(views[found] != address@);
                }
            }
            return Some(i);
        }
        i = i + 1;
    }
    proof {
        if address_position(views, address@) is Some {
            let k = choose|k: int| 0 <= k < views.len() && #[trigger] views[k] == address@;
            assert(views[k] != address@);
        }
    }
    None
}

/// The withdrawers of one window.
pub struct UserWithdrawManager {
    pub window: u64,
}

impl UserWithdrawManager {
    /// The manager of the withdrawers of `window`.
    pub fn new(window: u64) -> (manager: Self)
        ensures
            manager.window == window,
    {
        return Self { window };
    }

    /// How many withdrawers the window has.
    pub fn len(&self, store: &WithdrawStore) -> (n: usize)
        ensures
            n == store@.withdrawers_of(self.window).len(),
    {
        match store.withdrawers.get(&self.window) {
            Some(list) => list.len(),
            None => 0,
        }
    }

    /// The withdrawers of the window, in the order in which they were
    /// listed.
    pub fn users(&self, store: &WithdrawStore) -> (list: Vec<String>)
        ensures
            address_views(list@) == store@.withdrawers_of(self.window),
    {
        let mut list: Vec<String> = Vec::new();
        match store.withdrawers.get(&self.window) {
            Some(listed) => {
                let mut i: usize = 0;
                while i < listed.len()
                    invariant
                        i <= listed@.len(),
                        list@.len() == i,
                        forall|k: int| 0 <= k < i ==> (#[trigger] list@[k])@ == listed@[k]@,
                    decreases listed@.len() - i,
                {
                    list.push(listed[i].clone());
                    i = i + 1;
                }
                assert(address_views(list@) =~= address_views(listed@));
            },
            None => {
                assert(address_views(list@) =~= Seq::<Seq<char>>::empty());
            },
        }
        list
    }

    /// Lists a user as a withdrawer of the window. A user that is
    /// already listed is not listed again.
    pub fn append(&self, store: &mut WithdrawStore, user: &String)
        requires
            old(store).wf(),
        ensures
            final(store).wf(),
            final(store)@ == old(store)@.indexed(self.window, user@),
    {
        let ghost before = store@;
        let ghost prior = before.withdrawers_of(self.window);
        let mut list: Vec<String> = match store.withdrawers.remove(&self.window) {
            Some(list) => list,
            None => Vec::new(),
        };
        assert(address_views(list@) =~= prior);
        let found = find_address(&list, user);
        let ghost listed = prior.contains(user@);
        proof {
            if found is Some {
                assert(prior[found->0 as int] == user@);
            }
        }
        if found.is_none() {
            list.push(user.clone());
            assert(address_views(list@) =~= prior.push(user@));
        }
        let ghost after = address_views(list@);
        store.withdrawers.insert(self.window, list);
        proof {
            assert(store@.users =~= before.users);
            assert(store@.withdrawers =~= before.withdrawers.insert(self.window, after));
            if listed {
                // a list that holds the user is not empty, so the window had one
                assert(before.withdrawers.insert(self.window, after) =~= before.withdrawers);
            }
        }
    }

    /// Takes up to `amount` withdrawers off the end of the window's list
    /// and returns them, the last one first.
    pub fn get_many(&self, store: &mut WithdrawStore, amount: u32) -> (users: Vec<String>)
        requires
            old(store).wf(),
        ensures
            final(store).wf(),
            ({
                let list = old(store)@.withdrawers_of(self.window);
                let count = if list.len() <= amount {
                    list.len()
                } else {
                    amount as nat
                };
                &&& address_views(users@) == popped(list, count)
                &&& if count == 0 {
                    final(store)@ == old(store)@
                } else {
                    final(store)@ == old(store)@.with_withdrawers(
                        self.window,
                        list.take(list.len() - count),
                    )
                }
            }),
    {
        let ghost before = store@;
        let ghost prior = before.withdrawers_of(self.window);
        let mut users: Vec<String> = Vec::new();
        let max_users = self.len(store);
        if max_users == 0 || amount == 0 {
            assert(address_views(users@) =~= popped(prior, 0));
            return users;
        }
        let mut list: Vec<String> = match store.withdrawers.remove(&self.window) {
            Some(list) => list,
            None => Vec::new(),
        };
        assert(address_views(list@) =~= prior);
        let returned_addresses: usize = if max_users <= amount as usize {
            max_users
        } else {
            amount as usize
        };
        let mut i: usize = 0;
        while i < returned_addresses
            invariant
                i <= returned_addresses <= prior.len(),
                list@.len() == prior.len() - i,
                address_views(list@) == prior.take(prior.len() - i),
                address_views(users@) == popped(prior, i as nat),
            decreases returned_addresses - i,
        {
            let ghost shown = address_views(list@);
            let ghost taken_so_far = address_views(users@);
            match list.pop() {
                Some(user) => {
                    assert(user@ == shown[shown.len() - 1]);
                    users.push(user);
                    assert(address_views(users@) =~= taken_so_far.push(prior[prior.len() - 1 - i]));
                },
                None => {},
            }
            assert(address_views(list@) =~= prior.take(prior.len() - i - 1));
            assert(address_views(users@) =~= popped(prior, (i + 1) as nat));
            i = i + 1;
        }
        let ghost after = address_views(list@);
        store.withdrawers.insert(self.window, list);
        proof {
            assert(store@.users =~= before.users);
            assert(store@.withdrawers =~= before.withdrawers.insert(self.window, after));
        }
        users
    }

    /// Takes a user off the window's list of withdrawers and says whether
    /// the user was listed. The last withdrawer fills the gap.
    pub fn remove_address(&mut self, store: &mut WithdrawStore, address: &String) -> (found: bool)
        requires
            old(store).wf(),
        ensures
            final(store).wf(),
            final(self).window == old(self).window,
            ({
                let list = old(store)@.withdrawers_of(old(self).window);
                &&& found == (address_position(list, address@) is Some)
                &&& if found {
                    final(store)@ == old(store)@.with_withdrawers(
                        old(self).window,
                        without_address(list, address@),
                    )
                } else {
                    final(store)@ == old(store)@
                }
            }),
    {
        let ghost before = store@;
        let ghost prior = before.withdrawers_of(self.window);
        let mut list: Vec<String> = match store.withdrawers.remove(&self.window) {
            Some(list) => list,
            None => {
                assert(store@.users =~= before.users);
                assert(store@.withdrawers =~= before.withdrawers);
                assert(prior.len() == 0);
                return false;
            },
        };
        assert(address_views(list@) =~= prior);
        let found = take_off(&mut list, address);
        let ghost after = address_views(list@);
        store.withdrawers.insert(self.window, list);
        proof {
            assert(store@.users =~= before.users);
            assert(store@.withdrawers =~= before.withdrawers.insert(self.window, after));
            if !found {
                assert(before.withdrawers.insert(self.window, after) =~= before.withdrawers);
            }
        }
        found
    }
}

/// Takes an address off a list and says whether it was listed: the last
/// address leaves the list and, unless it is the one that was asked for,
/// takes the place where that one was first listed.
pub fn take_off(list: &mut Vec<String>, address: &String) -> (found: bool)
    ensures
        found == (address_position(address_views(old(list)@), address@) is Some),
        address_views(final(list)@) == without_address(address_views(old(list)@), address@),
{
    let ghost prior = address_views(list@);
    match find_address(list, address) {
        Some(pos) => {
            assert(prior[pos as int] == address@);
            match list.pop() {
                Some(last) => {
                    assert(last@ == prior.last());
                    if last != *address {
                        list[pos] = last;
                        assert(address_views(list@) =~= prior.update(
                            pos as int,
                            prior.last(),
                        ).drop_last());
                    } else {
                        assert(address_views(list@) =~= prior.drop_last());
                    }
                },
                None => {},
            }
            true
        },
        None => {
            assert(address_views(list@) =~= prior);
            false
        },
    }
}

} // verus!
