use crate::errors::ContractError;
use crate::staking::{instruction_views, undelegate_msg, withdraw_to_self};
use crate::staking::{Instruction, InstructionView};
use vstd::prelude::*;

verus! {

/// Weight given to a validator that was added without one.
pub const DEFAULT_WEIGHT: u8 = 10;

/// Two to the sixty-fourth: the base in which wide products are compared.
pub open spec fn limb() -> int {
    0x1_0000_0000_0000_0000
}

/// A validator as the allocator caches it: how much the contract believes
/// it has delegated there, and the weight that scales its share.
#[derive(Debug, Clone, PartialEq, Eq)]
pub struct Validator {
    pub address: String,
    pub staked: u128,
    pub weight: u8,
}

/// A validator as queries report it.
#[derive(Debug, Clone, PartialEq, Eq)]
pub struct ValidatorResponse {
    pub address: String,
    pub staked: u128,
    pub weight: u8,
}

/// What a validator record says, with the address as its characters.
pub struct ValidatorView {
    pub address: Seq<char>,
    pub staked: u128,
    pub weight: u8,
}

impl View for Validator {
    type V = ValidatorView;

    open spec fn view(&self) -> ValidatorView {
        ValidatorView { address: self.address@, staked: self.staked, weight: self.weight }
    }
}

impl View for ValidatorResponse {
    type V = ValidatorView;

    open spec fn view(&self) -> ValidatorView {
        ValidatorView { address: self.address@, staked: self.staked, weight: self.weight }
    }
}

/// The validators in allocation order: the front is the next to lose
/// stake, the back is the next to receive it. A set is valid while every
/// weight is positive, stake per weight does not increase from the front
/// to the back, and no address is listed twice. Adding, removing and
/// reweighting keep a valid set valid; staking and unbonding change one
/// cached stake and are followed by `rebalance`, which restores the
/// order.
#[derive(Debug, Clone, PartialEq)]
pub struct ValidatorSet {
    validators: Vec<Validator>,
}

/// `a` carries strictly less stake per unit of weight than `b`. The ratios
/// are compared by cross-multiplication, so nothing is divided.
pub open spec fn ratio_lt(a: ValidatorView, b: ValidatorView) -> bool {
    a.staked * b.weight < b.staked * a.weight
}

/// Stake per unit of weight does not increase from the front to the back.
pub open spec fn sorted_desc(s: Seq<ValidatorView>) -> bool {
    forall|i: int, j: int| 0 <= i < j < s.len() ==> !ratio_lt(#[trigger] s[i], #[trigger] s[j])
}

/// Every validator has a positive weight.
pub open spec fn weights_positive(s: Seq<ValidatorView>) -> bool {
    forall|i: int| 0 <= i < s.len() ==> (#[trigger] s[i]).weight > 0
}

/// Where `x` goes in `t` when it is put behind every validator that does
/// not carry less stake per weight than `x` does.
pub open spec fn insertion_point(t: Seq<ValidatorView>, x: ValidatorView) -> int
    decreases t.len(),
{
    if t.len() == 0 {
        0
    } else if !ratio_lt(t.last(), x) {
        t.len() as int
    } else {
        insertion_point(t.drop_last(), x)
    }
}

/// The validators ordered by stake per weight, highest first; validators
/// that compare equal keep the order they had.
pub open spec fn sort_desc(s: Seq<ValidatorView>) -> Seq<ValidatorView>
    decreases s.len(),
{
    if s.len() == 0 {
        s
    } else {
        let t = sort_desc(s.drop_last());
        t.insert(insertion_point(t, s.last()), s.last())
    }
}

/// The first position at which `address` is listed.
pub open spec fn first_index_of(s: Seq<ValidatorView>, address: Seq<char>) -> Option<int> {
    if exists|i: int| 0 <= i < s.len() && (#[trigger] s[i]).address == address {
        Some(
            choose|i: int|
                0 <= i < s.len() && (#[trigger] s[i]).address == address && forall|j: int|
                    0 <= j < i ==> (#[trigger] s[j]).address != address,
        )
    } else {
        None
    }
}

/// The validator `v` with its cached stake replaced.
pub open spec fn with_stake(v: ValidatorView, staked: u128) -> ValidatorView {
    ValidatorView { address: v.address, staked, weight: v.weight }
}

/// The validator `v` with its weight replaced.
pub open spec fn with_weight(v: ValidatorView, weight: u8) -> ValidatorView {
    ValidatorView { address: v.address, staked: v.staked, weight }
}

/// The weight that an optional weight stands for: the weight given where
/// it is positive, the default one otherwise.
pub open spec fn weight_or_default(weight: Option<u8>) -> u8 {
    match weight {
        Some(w) => if w > 0 {
            w
        } else {
            DEFAULT_WEIGHT
        },
        None => DEFAULT_WEIGHT,
    }
}

/// No address is listed twice.
pub open spec fn unique_addresses(s: Seq<ValidatorView>) -> bool {
    forall|i: int, j: int|
        0 <= i < s.len() && 0 <= j < s.len() && i != j ==> (#[trigger] s[i]).address != (
        #[trigger] s[j]).address
}

/// Whether `address` is listed.
pub open spec fn lists(s: Seq<ValidatorView>, address: Seq<char>) -> bool {
    exists|i: int| 0 <= i < s.len() && (#[trigger] s[i]).address == address
}

/// A set as the allocator keeps it: every weight is positive, stake per
/// weight does not increase from the front to the back, and no address
/// is listed twice.
pub open spec fn valid_set(s: Seq<ValidatorView>) -> bool {
    weights_positive(s) && sorted_desc(s) && unique_addresses(s)
}

/// What a list of addresses says, each address as its characters.
pub open spec fn address_views(addresses: Seq<String>) -> Seq<Seq<char>> {
    Seq::new(addresses.len(), |i: int| addresses[i]@)
}

/// What an optional list of addresses says.
pub open spec fn address_filter(addresses: Option<Vec<String>>) -> Option<Seq<Seq<char>>> {
    match addresses {
        Some(list) => Some(address_views(list@)),
        None => None,
    }
}

/// The validators that take part in a round of reward collection: those
/// with cached stake and, where a list of addresses is given, only those
/// on the list.
pub open spec fn collects_rewards(v: ValidatorView, addresses: Option<Seq<Seq<char>>>) -> bool {
    v.staked > 0 && match addresses {
        Some(list) => list.contains(v.address),
        None => true,
    }
}

/// One reward-collection instruction for each validator that takes part,
/// in allocation order.
pub open spec fn rewards_messages(
    s: Seq<ValidatorView>,
    addresses: Option<Seq<Seq<char>>>,
) -> Seq<InstructionView>
    decreases s.len(),
{
    if s.len() == 0 {
        Seq::empty()
    } else {
        let rest = rewards_messages(s.drop_last(), addresses);
        if collects_rewards(s.last(), addresses) {
            rest.push(InstructionView::WithdrawRewards { validator: s.last().address })
        } else {
            rest
        }
    }
}

/// One undelegate instruction for each validator with cached stake, for
/// all of that stake, in allocation order.
pub open spec fn unbond_all_messages(s: Seq<ValidatorView>) -> Seq<InstructionView>
    decreases s.len(),
{
    if s.len() == 0 {
        Seq::empty()
    } else {
        let rest = unbond_all_messages(s.drop_last());
        if s.last().staked > 0 {
            rest.push(
                InstructionView::Undelegate {
                    validator: s.last().address,
                    amount: s.last().staked,
                },
            )
        } else {
            rest
        }
    }
}

/// The sum of all cached stakes.
pub open spec fn total_staked(s: Seq<ValidatorView>) -> nat
    decreases s.len(),
{
    if s.len() == 0 {
        0
    } else {
        total_staked(s.drop_last()) + s.last().staked as nat
    }
}

/// The product of a stake and a weight as two limbs: the first counts
/// whole multiples of two to the sixty-fourth, the second is the rest.
fn wide_product(staked: u128, weight: u8) -> (limbs: (u128, u128))
    ensures
        limbs.0 * limb() + limbs.1 == staked * weight,
        limbs.1 < limb(),
{
    let w: u128 = weight as u128;
    let hi: u128 = staked / 0x1_0000_0000_0000_0000;
    let lo: u128 = staked % 0x1_0000_0000_0000_0000;
    assert(hi * w <= 0xffff_ffff_ffff_ffff * 255 && lo * w <= 0xffff_ffff_ffff_ffff * 255)
        by (nonlinear_arith)
        requires
            hi <= 0xffff_ffff_ffff_ffff,
            lo <= 0xffff_ffff_ffff_ffff,
            w <= 255,
    ;
    let low_product: u128 = lo * w;
    let high_product: u128 = hi * w;
    let top: u128 = high_product + low_product / 0x1_0000_0000_0000_0000;
    let rest: u128 = low_product % 0x1_0000_0000_0000_0000;
    assert(top * 0x1_0000_0000_0000_0000 + rest == staked * weight) by (nonlinear_arith)
        requires
            staked == hi * 0x1_0000_0000_0000_0000 + lo,
            low_product == lo * w,
            high_product == hi * w,
            top == high_product + low_product / 0x1_0000_0000_0000_0000,
            rest == low_product % 0x1_0000_0000_0000_0000,
            w == weight,
    ;
    (top, rest)
}

/// Whether `a` carries strictly less stake per unit of weight than `b`.
pub fn has_lower_ratio(a: &Validator, b: &Validator) -> (lower: bool)
    ensures
        lower == ratio_lt(a@, b@),
{
    let left = wide_product(a.staked, b.weight);
    let right = wide_product(b.staked, a.weight);
    left.0 < right.0 || (left.0 == right.0 && left.1 < right.1)
}

/// Whether `address` is on a list of addresses.
pub fn lists_address(addresses: &Vec<String>, address: &String) -> (listed: bool)
    ensures
        listed == address_views(addresses@).contains(address@),
{
    let ghost views = address_views(addresses@);
    let mut i: usize = 0;
    while i < addresses.len()
        invariant
            i <= addresses@.len(),
            views == address_views(addresses@),
            forall|j: int| 0 <= j < i ==> views[j] != address@,
        decreases addresses@.len() - i,
    {
        if addresses[i] == *address {
            assert(views[i as int] == address@);
            return true;
        }
        i = i + 1;
    }
    false
}

impl View for ValidatorSet {
    type V = Seq<ValidatorView>;

    closed spec fn view(&self) -> Seq<ValidatorView> {
        Seq::new(self.validators@.len(), |i: int| self.validators@[i]@)
    }
}

impl ValidatorSet {
    /// A set without validators.
    pub fn new() -> (set: Self)
        ensures
            set@ == Seq::<ValidatorView>::empty(),
    {
        let set = ValidatorSet { validators: Vec::new() };
        assert(set@ =~= Seq::<ValidatorView>::empty());
        set
    }

    /// A set that lists the given validators in the given order.
    pub fn from_validators(validators: Vec<Validator>) -> (set: Self)
        ensures
            set@ == Seq::new(validators@.len(), |i: int| validators@[i]@),
    {
        ValidatorSet { validators }
    }

    /// Whether the set is as the allocator keeps it: every weight is
    /// positive, stake per weight does not increase from the front to the
    /// back, and no address is listed twice.
    pub fn is_valid(&self) -> (valid: bool)
        ensures
            valid == valid_set(self@),
    {
        let n = self.validators.len();
        let mut i: usize = 0;
        while i < n
            invariant
                i <= n,
                n == self.validators@.len(),
                n == self@.len(),
                forall|a: int| 0 <= a < i ==> (#[trigger] self@[a]).weight > 0,
                forall|a: int, b: int|
                    0 <= a < i && a < b < n ==> !ratio_lt(#[trigger] self@[a], #[trigger] self@[b])
                        && self@[a].address != self@[b].address,
            decreases n - i,
        {
            if self.validators[i].weight == 0 {
                assert(self@[i as int].weight == 0);
                return false;
            }
            let mut j: usize = i + 1;
            while j < n
                invariant
                    i < j <= n,
                    n == self.validators@.len(),
                    n == self@.len(),
                    forall|b: int|
                        i < b < j ==> !ratio_lt(self@[i as int], #[trigger] self@[b])
                            && self@[i as int].address != self@[b].address,
                decreases n - j,
            {
                if has_lower_ratio(&self.validators[i], &self.validators[j]) {
                    assert(ratio_lt(self@[i as int], self@[j as int]));
                    return false;
                }
                if self.validators[i].address == self.validators[j].address {
                    assert(self@[i as int].address == self@[j as int].address);
                    return false;
                }
                j = j + 1;
            }
            i = i + 1;
        }
        assert(unique_addresses(self@)) by {
            assert forall|a: int, b: int|
                0 <= a < self@.len() && 0 <= b < self@.len() && a != b implies (
            #[trigger] self@[a]).address != (#[trigger] self@[b]).address by {
                if a < b {
                    assert(!ratio_lt(self@[a], self@[b]));
                } else {
                    assert(!ratio_lt(self@[b], self@[a]));
                }
            }
        }
        true
    }

    /// The validators in allocation order.
    pub fn validators(&self) -> (list: &Vec<Validator>)
        ensures
            Seq::new(list@.len(), |i: int| list@[i]@) == self@,
    {
        &self.validators
    }

    /// Number of validators.
    pub fn len(&self) -> (n: usize)
        ensures
            n == self@.len(),
    {
        self.validators.len()
    }

    /// The sum of the cached stakes: what the contract believes it has
    /// delegated in all. Nothing where the sum does not fit.
    pub fn total_staked(&self) -> (total: Option<u128>)
        ensures
            match total {
                Some(sum) => sum == total_staked(self@),
                None => total_staked(self@) > u128::MAX,
            },
    {
        let mut sum: u128 = 0;
        let mut i: usize = 0;
        assert(self@.take(0) =~= Seq::<ValidatorView>::empty());
        while i < self.validators.len()
            invariant
                i <= self.validators@.len(),
                self@.len() == self.validators@.len(),
                sum == total_staked(self@.take(i as int)),
            decreases self.validators@.len() - i,
        {
            proof {
                assert(self@.take(i + 1).drop_last() =~= self@.take(i as int));
                assert(self@.take(i + 1).last() == self.validators@[i as int]@);
            }
            let staked = self.validators[i].staked;
            if staked > u128::MAX - sum {
                proof {
                    lemma_total_staked_grows(self@, i + 1);
                }
                return None;
            }
            sum = sum + staked;
            i = i + 1;
        }
        assert(self@.take(i as int) =~= self@);
        Some(sum)
    }

    /// The validators as queries report them.
    pub fn to_query_response(&self) -> (list: Vec<ValidatorResponse>)
        ensures
            Seq::new(list@.len(), |i: int| list@[i]@) == self@,
    {
        let mut list: Vec<ValidatorResponse> = Vec::new();
        let mut i: usize = 0;
        while i < self.validators.len()
            invariant
                i <= self.validators@.len(),
                list@.len() == i,
                forall|k: int| 0 <= k < i ==> (#[trigger] list@[k])@ == self@[k],
            decreases self.validators@.len() - i,
        {
            let v = &self.validators[i];
            list.push(
                ValidatorResponse { address: v.address.clone(), staked: v.staked, weight: v.weight },
            );
            i = i + 1;
        }
        assert(Seq::new(list@.len(), |i: int| list@[i]@) =~= self@);
        list
    }

    /// The best candidate to lose stake: the validator at the front.
    pub fn next_to_unbond(&self) -> (next: Option<&Validator>)
        ensures
            match next {
                Some(v) => self@.len() > 0 && v@ == self@[0],
                None => self@.len() == 0,
            },
    {
        if self.validators.is_empty() {
            return None;
        }
        Some(&self.validators[0])
    }

    /// The first position at which `address` is listed.
    pub fn find(&self, address: &str) -> (position: Option<usize>)
        ensures
            match position {
                Some(i) => i < self@.len() && self@[i as int].address == address@ && forall|j: int|
                    0 <= j < i ==> (#[trigger] self@[j]).address != address@,
                None => forall|j: int| 0 <= j < self@.len() ==> (#[trigger] self@[j]).address
                    != address@,
            },
            match position {
                Some(i) => first_index_of(self@, address@) == Some(i as int),
                None => first_index_of(self@, address@) is None,
            },
    {
        let wanted: String = address.to_owned();
        let mut i: usize = 0;
        while i < self.validators.len()
            invariant
                i <= self.validators@.len(),
                wanted@ == address@,
                forall|j: int| 0 <= j < i ==> (#[trigger] self@[j]).address != address@,
            decreases self.validators@.len() - i,
        {
            if self.validators[i].address == wanted {
                assert(self@[i as int].address == address@);
                proof {
                    let found = first_index_of(self@, address@)->0;
                    if found < i {
                        assert(self@[found].address != address@);
                    }
                    if found > i {
                        assert(self@[i as int].address == address@);
                    }
                }
                return Some(i);
            }
            i = i + 1;
        }
        assert(first_index_of(self@, address@) is None) by {
            if exists|k: int| 0 <= k < self@.len() && (#[trigger] self@[k]).address == address@ {
                let k = choose|k: int| 0 <= k < self@.len() && (#[trigger] self@[k]).address == address@;
                assert(self@[k].address != address@);
            }
        }
        None
    }

    /// Takes a validator off the set and hands it back. A validator that
    /// still has cached stake is only removed when `force` is set; the
    /// stake is not moved anywhere by the removal.
    pub fn remove(&mut self, address: &str, force: bool) -> (removed: Result<
        Option<Validator>,
        ContractError,
    >)
        ensures
            match removed {
                Ok(taken) => {
                    &&& first_index_of(old(self)@, address@) matches Some(i)
                    &&& 0 <= i < old(self)@.len()
                    &&& old(self)@[i].address == address@
                    &&& force || old(self)@[i].staked == 0
                    &&& taken matches Some(v)
                    &&& v@ == old(self)@[i]
                    &&& final(self)@ == old(self)@.remove(i)
                },
                Err(e) => {
                    &&& final(self)@ == old(self)@
                    &&& match first_index_of(old(self)@, address@) {
                        Some(i) => e == ContractError::StakeRemaining && !force && old(self)@[i].staked
                            != 0,
                        None => e == ContractError::NotFound,
                    }
                },
            },
            valid_set(old(self)@) ==> valid_set(final(self)@),
    {
        let pos = match self.find(address) {
            Some(pos) => pos,
            None => {
                return Err(ContractError::NotFound);
            },
        };
        if !force && self.validators[pos].staked != 0 {
            return Err(ContractError::StakeRemaining);
        }
        let taken = self.validators.remove(pos);
        assert(self@ =~= old(self)@.remove(pos as int));
        proof {
            if valid_set(old(self)@) {
                lemma_remove_keeps_valid(old(self)@, pos as int);
            }
        }
        Ok(Some(taken))
    }

    /// Adds a validator without cached stake at the back, with the given
    /// weight, or the default one where none or zero is given. An address
    /// that is already listed is left as it is. A valid set stays valid:
    /// a validator without stake belongs at the back.
    pub fn add(&mut self, address: String, weight: Option<u8>)
        ensures
            first_index_of(old(self)@, address@) is Some ==> final(self)@ == old(self)@,
            first_index_of(old(self)@, address@) is None ==> final(self)@ == old(self)@.push(
                ValidatorView { address: address@, staked: 0, weight: weight_or_default(weight) },
            ),
            valid_set(old(self)@) ==> valid_set(final(self)@),
    {
        if self.find(address.as_str()).is_none() {
            let w = match weight {
                Some(w) => if w > 0 {
                    w
                } else {
                    DEFAULT_WEIGHT
                },
                None => DEFAULT_WEIGHT,
            };
            self.validators.push(Validator { address, staked: 0, weight: w });
            let ghost added = ValidatorView { address: address@, staked: 0, weight: w };
            assert(self@ =~= old(self)@.push(added));
            proof {
                if valid_set(old(self)@) {
                    lemma_push_idle_keeps_valid(old(self)@, added);
                }
            }
        }
    }

    /// Sets the weight of a validator to the given one, or to the default
    /// where none is given, and restores the allocation order. A weight of
    /// zero is rejected and nothing changes.
    pub fn change_weight(&mut self, address: &str, weight: Option<u8>) -> (done: Result<
        (),
        ContractError,
    >)
        ensures
            match done {
                Ok(()) => {
                    &&& weight != Some(0u8)
                    &&& first_index_of(old(self)@, address@) matches Some(i)
                    &&& 0 <= i < old(self)@.len()
                    &&& old(self)@[i].address == address@
                    &&& final(self)@ == sort_desc(
                        old(self)@.update(
                            i,
                            with_weight(old(self)@[i], weight_or_default(weight)),
                        ),
                    )
                },
                Err(e) => {
                    &&& final(self)@ == old(self)@
                    &&& if weight == Some(0u8) {
                        e == ContractError::InvalidWeight
                    } else {
                        e == ContractError::NotFound && first_index_of(old(self)@, address@)
                            is None
                    }
                },
            },
            done is Ok && weights_positive(old(self)@) ==> sorted_desc(final(self)@)
                && weights_positive(final(self)@),
            done is Ok && weights_positive(old(self)@) && unique_addresses(old(self)@)
                ==> valid_set(final(self)@),
    {
        let w = match weight {
            Some(w) => {
                if w == 0 {
                    return Err(ContractError::InvalidWeight);
                }
                w
            },
            None => DEFAULT_WEIGHT,
        };
        let pos = match self.find(address) {
            Some(pos) => pos,
            None => {
                return Err(ContractError::NotFound);
            },
        };
        self.validators[pos].weight = w;
        let ghost changed = old(self)@.update(pos as int, with_weight(old(self)@[pos as int], w));
        assert(self@ =~= changed);
        proof {
            lemma_update_keeps_addresses(old(self)@, pos as int, with_weight(old(self)@[pos as int], w));
            if weights_positive(old(self)@) {
                assert forall|k: int| 0 <= k < changed.len() implies (#[trigger] changed[k]).weight
                    > 0 by {
                    if k != pos {
                        assert(changed[k] == old(self)@[k]);
                    }
                }
                lemma_sort_desc_sorted(changed);
                if unique_addresses(old(self)@) {
                    lemma_sort_desc_addresses(changed);
                }
            }
        }
        self.rebalance();
        Ok(())
    }

    /// Takes `to_unbond` off the cached stake of the validator at the
    /// front, stopping at zero, and names that validator.
    pub fn unbond(&mut self, to_unbond: u128) -> (target: Result<String, ContractError>)
        ensures
            match target {
                Ok(address) => {
                    &&& old(self)@.len() > 0
                    &&& address@ == old(self)@[0].address
                    &&& final(self)@ == old(self)@.update(
                        0,
                        with_stake(
                            old(self)@[0],
                            if old(self)@[0].staked >= to_unbond {
                                (old(self)@[0].staked - to_unbond) as u128
                            } else {
                                0
                            },
                        ),
                    )
                },
                Err(e) => e == ContractError::EmptyValidatorSet && old(self)@.len() == 0 && final(self)@ == old(self)@,
            },
    {
        if self.validators.is_empty() {
            return Err(ContractError::EmptyValidatorSet);
        }
        let staked = self.validators[0].staked;
        let left: u128 = if staked >= to_unbond {
            staked - to_unbond
        } else {
            0
        };
        self.validators[0].staked = left;
        assert(self@ =~= old(self)@.update(0, with_stake(old(self)@[0], left)));
        Ok(self.validators[0].address.clone())
    }

    /// Adds `to_stake` to the cached stake of the validator at the back
    /// and names that validator.
    pub fn stake(&mut self, to_stake: u128) -> (target: Result<String, ContractError>)
        ensures
            match target {
                Ok(address) => {
                    &&& old(self)@.len() > 0
                    &&& old(self)@.last().staked + to_stake <= u128::MAX
                    &&& address@ == old(self)@.last().address
                    &&& final(self)@ == old(self)@.update(
                        old(self)@.len() - 1,
                        with_stake(
                            old(self)@.last(),
                            (old(self)@.last().staked + to_stake) as u128,
                        ),
                    )
                },
                Err(e) => {
                    &&& final(self)@ == old(self)@
                    &&& if old(self)@.len() == 0 {
                        e == ContractError::EmptyValidatorSet
                    } else {
                        e == ContractError::Overflow && old(self)@.last().staked + to_stake
                            > u128::MAX
                    }
                },
            },
    {
        if self.validators.is_empty() {
            return Err(ContractError::EmptyValidatorSet);
        }
        let last = self.validators.len() - 1;
        let staked = self.validators[last].staked;
        if to_stake > u128::MAX - staked {
            return Err(ContractError::Overflow);
        }
        let sum: u128 = staked + to_stake;
        self.validators[last].staked = sum;
        assert(self@ =~= old(self)@.update(last as int, with_stake(old(self)@.last(), sum)));
        Ok(self.validators[last].address.clone())
    }

    /// Adds `to_stake` to the cached stake of the named validator.
    pub fn stake_at(&mut self, address: &str, to_stake: u128) -> (done: Result<(), ContractError>)
        ensures
            match done {
                Ok(()) => {
                    &&& first_index_of(old(self)@, address@) matches Some(i)
                    &&& 0 <= i < old(self)@.len()
                    &&& old(self)@[i].address == address@
                    &&& old(self)@[i].staked + to_stake <= u128::MAX
                    &&& final(self)@ == old(self)@.update(
                        i,
                        with_stake(old(self)@[i], (old(self)@[i].staked + to_stake) as u128),
                    )
                },
                Err(e) => {
                    &&& final(self)@ == old(self)@
                    &&& if old(self)@.len() == 0 {
                        e == ContractError::EmptyValidatorSet
                    } else {
                        match first_index_of(old(self)@, address@) {
                            Some(i) => e == ContractError::Overflow && old(self)@[i].staked
                                + to_stake > u128::MAX,
                            None => e == ContractError::NotFound,
                        }
                    }
                },
            },
    {
        if self.validators.is_empty() {
            return Err(ContractError::EmptyValidatorSet);
        }
        let pos = match self.find(address) {
            Some(pos) => pos,
            None => {
                return Err(ContractError::NotFound);
            },
        };
        let staked = self.validators[pos].staked;
        if to_stake > u128::MAX - staked {
            return Err(ContractError::Overflow);
        }
        let sum: u128 = staked + to_stake;
        self.validators[pos].staked = sum;
        assert(self@ =~= old(self)@.update(pos as int, with_stake(old(self)@[pos as int], sum)));
        Ok(())
    }

    /// Restores the allocation order: highest stake per weight at the
    /// front, lowest at the back, equal ones in the order they had. To be
    /// called after every change of a cached stake.
    pub fn rebalance(&mut self)
        ensures
            final(self)@ == sort_desc(old(self)@),
            final(self)@.to_multiset() == old(self)@.to_multiset(),
            weights_positive(old(self)@) ==> sorted_desc(final(self)@) && weights_positive(
                final(self)@,
            ),
            weights_positive(old(self)@) && unique_addresses(old(self)@) ==> valid_set(
                final(self)@,
            ),
    {
        let n = self.validators.len();
        let ghost orig = self@;
        proof {
            lemma_sort_desc_permutes(orig);
            if weights_positive(orig) {
                lemma_sort_desc_sorted(orig);
            }
            lemma_sort_desc_addresses(orig);
        }
        if n < 2 {
            proof {
                if n == 1 {
                    assert(orig.drop_last() =~= Seq::<ValidatorView>::empty());
                    assert(sort_desc(orig.drop_last()) =~= Seq::<ValidatorView>::empty());
                    assert(sort_desc(orig) =~= orig);
                } else {
                    assert(sort_desc(orig) =~= orig);
                }
            }
            return ;
        }
        let mut i: usize = 0;
        assert(orig.take(0) =~= Seq::<ValidatorView>::empty());
        assert(self@ =~= sort_desc(orig.take(0)) + orig.skip(0));
        while i < n
            invariant
                i <= n,
                n == orig.len(),
                self@.len() == n,
                self@ == sort_desc(orig.take(i as int)) + orig.skip(i as int),
                sort_desc(orig.take(i as int)).len() == i,
            decreases n - i,
        {
            let ghost before = self@;
            let ghost done = sort_desc(orig.take(i as int));
            let ghost x = orig[i as int];
            assert(before[i as int] == x);
            let mut j: usize = i;
            while j > 0 && has_lower_ratio(&self.validators[j - 1], &self.validators[i])
                invariant
                    j <= i < n,
                    self@ == before,
                    self@.len() == n,
                    before[i as int] == x,
                    forall|k: int| j <= k < i ==> ratio_lt(#[trigger] before[k], x),
                decreases j,
            {
                j = j - 1;
            }
            let ghost listed = self.validators@;
            let moved = self.validators.remove(i);
            self.validators.insert(j, moved);
            proof {
                assert(self.validators@ == listed.remove(i as int).insert(j as int, listed[i as int]));
                assert(forall|k: int| 0 <= k < n ==> before[k] == (#[trigger] listed[k])@);
                assert(forall|k: int| 0 <= k < i ==> done[k] == before[k]);
                assert(j == 0 || !ratio_lt(done[j - 1], x));
                lemma_insertion_point(done, x, j as int);
                assert(orig.take(i + 1).drop_last() =~= orig.take(i as int));
                assert(orig.take(i + 1).last() == x);
                assert(sort_desc(orig.take(i + 1)) == done.insert(j as int, x));
                let target = done.insert(j as int, x) + orig.skip(i + 1);
                assert(self@.len() == target.len());
                assert forall|k: int| 0 <= k < n implies self@[k] == target[k] by {
                    if k < j {
                        assert(self.validators@[k] == listed[k]);
                    } else if k == j {
                        assert(self.validators@[k] == listed[i as int]);
                    } else if k <= i {
                        assert(self.validators@[k] == listed[k - 1]);
                        assert(before[k - 1] == done[k - 1]);
                    } else {
                        assert(self.validators@[k] == listed[k]);
                        assert(before[k] == orig.skip(i as int)[k - i]);
                    }
                }
                assert(self@ =~= target);
            }
            i = i + 1;
        }
        assert(orig.take(n as int) =~= orig);
        assert(self@ =~= sort_desc(orig));
    }

    /// One reward-collection instruction for every validator with cached
    /// stake; with a list of addresses, only for those on the list.
    pub fn withdraw_rewards_messages(&self, addresses: Option<Vec<String>>) -> (messages: Vec<
        Instruction,
    >)
        ensures
            instruction_views(messages@) == rewards_messages(self@, address_filter(addresses)),
    {
        let ghost filter: Option<Seq<Seq<char>>> = address_filter(addresses);
        let mut messages: Vec<Instruction> = Vec::new();
        let mut i: usize = 0;
        assert(self@.take(0) =~= Seq::<ValidatorView>::empty());
        assert(instruction_views(messages@) =~= rewards_messages(self@.take(0), filter));
        while i < self.validators.len()
            invariant
                i <= self.validators@.len(),
                self@.len() == self.validators@.len(),
                filter == address_filter(addresses),
                instruction_views(messages@) == rewards_messages(self@.take(i as int), filter),
            decreases self.validators@.len() - i,
        {
            let val = &self.validators[i];
            let listed = match &addresses {
                Some(list) => lists_address(list, &val.address),
                None => true,
            };
            let ghost prior = instruction_views(messages@);
            proof {
                assert(self@.take(i + 1).drop_last() =~= self@.take(i as int));
                assert(self@.take(i + 1).last() == val@);
            }
            if listed && val.staked > 0 {
                messages.push(withdraw_to_self(val.address.as_str()));
                assert(instruction_views(messages@) =~= prior.push(
                    InstructionView::WithdrawRewards { validator: val@.address },
                ));
            }
            i = i + 1;
        }
        assert(self@.take(i as int) =~= self@);
        messages
    }

    /// One undelegate instruction for every validator with cached stake,
    /// for all of that stake.
    pub fn unbond_all(&self) -> (messages: Vec<Instruction>)
        ensures
            instruction_views(messages@) == unbond_all_messages(self@),
    {
        let mut messages: Vec<Instruction> = Vec::new();
        let mut i: usize = 0;
        assert(self@.take(0) =~= Seq::<ValidatorView>::empty());
        assert(instruction_views(messages@) =~= unbond_all_messages(self@.take(0)));
        while i < self.validators.len()
            invariant
                i <= self.validators@.len(),
                self@.len() == self.validators@.len(),
                instruction_views(messages@) == unbond_all_messages(self@.take(i as int)),
            decreases self.validators@.len() - i,
        {
            let val = &self.validators[i];
            let ghost prior = instruction_views(messages@);
            proof {
                assert(self@.take(i + 1).drop_last() =~= self@.take(i as int));
                assert(self@.take(i + 1).last() == val@);
            }
            if val.staked > 0 {
                messages.push(undelegate_msg(val.address.as_str(), val.staked));
                assert(instruction_views(messages@) =~= prior.push(
                    InstructionView::Undelegate { validator: val@.address, amount: val.staked },
                ));
            }
            i = i + 1;
        }
        assert(self@.take(i as int) =~= self@);
        messages
    }

    /// Clears every cached stake.
    pub fn zero(&mut self)
        ensures
            final(self)@.len() == old(self)@.len(),
            forall|i: int|
                0 <= i < old(self)@.len() ==> (#[trigger] final(self)@[i]) == with_stake(
                    old(self)@[i],
                    0,
                ),
            valid_set(old(self)@) ==> valid_set(final(self)@),
    {
        let mut i: usize = 0;
        while i < self.validators.len()
            invariant
                i <= self.validators@.len(),
                self@.len() == old(self)@.len(),
                self.validators@.len() == old(self)@.len(),
                forall|k: int| 0 <= k < i ==> (#[trigger] self@[k]) == with_stake(old(self)@[k], 0),
                forall|k: int| i <= k < self@.len() ==> (#[trigger] self@[k]) == old(self)@[k],
            decreases self.validators@.len() - i,
        {
            let ghost prev = self@;
            self.validators[i].staked = 0;
            assert(self@ =~= prev.update(i as int, with_stake(prev[i as int], 0)));
            i = i + 1;
        }
    }
}

/// The insertion point is the position right behind the last validator
/// that does not carry less stake per weight than the newcomer.
pub proof fn lemma_insertion_point(t: Seq<ValidatorView>, x: ValidatorView, j: int)
    requires
        0 <= j <= t.len(),
        forall|k: int| j <= k < t.len() ==> ratio_lt(#[trigger] t[k], x),
        j == 0 || !ratio_lt(t[j - 1], x),
    ensures
        insertion_point(t, x) == j,
    decreases t.len(),
{
    if t.len() > 0 && j < t.len() {
        assert(ratio_lt(t[t.len() - 1], x));
        lemma_insertion_point(t.drop_last(), x, j);
    }
}

/// The insertion point lies within the sequence, every validator behind
/// it carries less stake per weight than the newcomer, and the one before
/// it does not.
pub proof fn lemma_insertion_point_bounds(t: Seq<ValidatorView>, x: ValidatorView)
    ensures
        0 <= insertion_point(t, x) <= t.len(),
        forall|k: int| insertion_point(t, x) <= k < t.len() ==> ratio_lt(#[trigger] t[k], x),
        insertion_point(t, x) == 0 || !ratio_lt(t[insertion_point(t, x) - 1], x),
    decreases t.len(),
{
    if t.len() > 0 && ratio_lt(t.last(), x) {
        let shorter = t.drop_last();
        lemma_insertion_point_bounds(shorter, x);
        let j = insertion_point(shorter, x);
        assert forall|k: int| j <= k < t.len() implies ratio_lt(#[trigger] t[k], x) by {
            if k < shorter.len() {
                assert(shorter[k] == t[k]);
            }
        }
        if j > 0 {
            assert(shorter[j - 1] == t[j - 1]);
        }
    }
}

/// Ordering a set keeps every validator, each as often as it was listed.
pub proof fn lemma_sort_desc_permutes(s: Seq<ValidatorView>)
    ensures
        sort_desc(s).len() == s.len(),
        sort_desc(s).to_multiset() == s.to_multiset(),
    decreases s.len(),
{
    broadcast use vstd::seq_lib::group_to_multiset_ensures;

    if s.len() > 0 {
        let t = sort_desc(s.drop_last());
        let x = s.last();
        lemma_sort_desc_permutes(s.drop_last());
        lemma_insertion_point_bounds(t, x);
        let j = insertion_point(t, x);
        assert(s =~= s.drop_last().push(x));
        vstd::seq_lib::to_multiset_insert(t, j, x);
    }
}

/// With positive weights the comparison by cross-multiplication is
/// transitive.
pub proof fn lemma_ratio_transitive(a: ValidatorView, b: ValidatorView, c: ValidatorView)
    requires
        a.weight > 0,
        b.weight > 0,
        c.weight > 0,
        !ratio_lt(a, b),
        !ratio_lt(b, c),
    ensures
        !ratio_lt(a, c),
{
    let (sa, wa) = (a.staked as int, a.weight as int);
    let (sb, wb) = (b.staked as int, b.weight as int);
    let (sc, wc) = (c.staked as int, c.weight as int);
    assert(sa * wc >= sc * wa) by (nonlinear_arith)
        requires
            sa * wb >= sb * wa,
            sb * wc >= sc * wb,
            wa > 0,
            wb > 0,
            wc > 0,
            sa >= 0,
            sb >= 0,
            sc >= 0,
    ;
}

/// With positive weights the ordered set is sorted: stake per weight does
/// not increase from the end that loses stake to the end that receives it.
pub proof fn lemma_sort_desc_sorted(s: Seq<ValidatorView>)
    requires
        weights_positive(s),
    ensures
        sorted_desc(sort_desc(s)),
        weights_positive(sort_desc(s)),
    decreases s.len(),
{
    if s.len() > 0 {
        let t = sort_desc(s.drop_last());
        let x = s.last();
        assert(weights_positive(s.drop_last())) by {
            assert forall|i: int| 0 <= i < s.drop_last().len() implies (#[trigger] s.drop_last()[i]).weight
                > 0 by {
                assert(s.drop_last()[i] == s[i]);
            }
        }
        lemma_sort_desc_sorted(s.drop_last());
        lemma_insertion_point_bounds(t, x);
        let j = insertion_point(t, x);
        let r = t.insert(j, x);
        assert(x.weight > 0);
        assert forall|i: int| 0 <= i < r.len() implies (#[trigger] r[i]).weight > 0 by {
            if i < j {
                assert(r[i] == t[i]);
            } else if i > j {
                assert(r[i] == t[i - 1]);
            }
        }
        assert forall|a: int, b: int| 0 <= a < b < r.len() implies !ratio_lt(
            #[trigger] r[a],
            #[trigger] r[b],
        ) by {
            if b < j {
                assert(r[a] == t[a] && r[b] == t[b]);
            } else if b == j {
                assert(r[a] == t[a]);
                if a < j - 1 {
                    assert(!ratio_lt(t[a], t[j - 1]));
                    lemma_ratio_transitive(t[a], t[j - 1], x);
                }
            } else if a == j {
                assert(r[b] == t[b - 1]);
                assert(ratio_lt(t[b - 1], x));
                lemma_ratio_asymmetric(t[b - 1], x);
            } else if a > j {
                assert(r[a] == t[a - 1] && r[b] == t[b - 1]);
            } else {
                assert(r[a] == t[a] && r[b] == t[b - 1]);
                if a == b - 1 {
                    // the newcomer went between two neighbours: the one
                    // before it does not carry less than it, the one
                    // behind it carries less
                    assert(a == j - 1);
                    assert(ratio_lt(t[b - 1], x));
                    lemma_ratio_asymmetric(t[b - 1], x);
                    lemma_ratio_transitive(t[a], x, t[b - 1]);
                }
            }
        }
    }
}

/// After a cached stake was changed, as staking and unbonding do,
/// rebalancing restores the order: with positive weights the set is sorted
/// by stake per weight, not increasing from the end that loses stake to
/// the end that receives it, and it still lists the same validators.
pub proof fn lemma_rebalance_restores_order(s: Seq<ValidatorView>, i: int, staked: u128)
    requires
        weights_positive(s),
        0 <= i < s.len(),
    ensures
        sorted_desc(sort_desc(s.update(i, with_stake(s[i], staked)))),
        weights_positive(sort_desc(s.update(i, with_stake(s[i], staked)))),
        sort_desc(s.update(i, with_stake(s[i], staked))).to_multiset() == s.update(
            i,
            with_stake(s[i], staked),
        ).to_multiset(),
        unique_addresses(s) ==> valid_set(sort_desc(s.update(i, with_stake(s[i], staked)))),
{
    let changed = s.update(i, with_stake(s[i], staked));
    lemma_update_keeps_addresses(s, i, with_stake(s[i], staked));
    lemma_sort_desc_addresses(changed);
    assert forall|k: int| 0 <= k < changed.len() implies (#[trigger] changed[k]).weight > 0 by {
        if k != i {
            assert(changed[k] == s[k]);
        } else {
            assert(s[i].weight > 0);
        }
    }
    lemma_sort_desc_sorted(changed);
    lemma_sort_desc_permutes(changed);
}

/// The total of the first validators of a list is at most the total of
/// all.
pub proof fn lemma_total_staked_grows(s: Seq<ValidatorView>, n: int)
    requires
        0 <= n <= s.len(),
    ensures
        total_staked(s.take(n)) <= total_staked(s),
    decreases s.len() - n,
{
    if n < s.len() {
        assert(s.take(n + 1).drop_last() =~= s.take(n));
        lemma_total_staked_grows(s, n + 1);
    } else {
        assert(s.take(n) =~= s);
    }
}

/// Putting a validator into a list adds its stake to the total.
pub proof fn lemma_total_staked_insert(t: Seq<ValidatorView>, j: int, x: ValidatorView)
    requires
        0 <= j <= t.len(),
    ensures
        total_staked(t.insert(j, x)) == total_staked(t) + x.staked,
    decreases t.len() - j,
{
    let r = t.insert(j, x);
    if j == t.len() {
        assert(r.drop_last() =~= t);
        assert(r.last() == x);
    } else {
        assert(r.drop_last() =~= t.drop_last().insert(j, x));
        assert(r.last() == t.last());
        lemma_total_staked_insert(t.drop_last(), j, x);
    }
}

/// Ordering a set does not change the sum of the cached stakes.
pub proof fn lemma_sort_desc_keeps_total(s: Seq<ValidatorView>)
    ensures
        total_staked(sort_desc(s)) == total_staked(s),
    decreases s.len(),
{
    if s.len() > 0 {
        let t = sort_desc(s.drop_last());
        lemma_sort_desc_keeps_total(s.drop_last());
        lemma_insertion_point_bounds(t, s.last());
        lemma_total_staked_insert(t, insertion_point(t, s.last()), s.last());
    }
}

/// Changing the cached stake at the front changes the total by as much.
pub proof fn lemma_total_staked_front(s: Seq<ValidatorView>, staked: u128)
    requires
        s.len() > 0,
    ensures
        total_staked(s.update(0, with_stake(s[0], staked))) == total_staked(s) - s[0].staked
            + staked,
    decreases s.len(),
{
    let r = s.update(0, with_stake(s[0], staked));
    if s.len() == 1 {
        assert(r.drop_last() =~= Seq::<ValidatorView>::empty());
        assert(s.drop_last() =~= Seq::<ValidatorView>::empty());
        assert(total_staked(r.drop_last()) == 0);
        assert(total_staked(s.drop_last()) == 0);
    } else {
        assert(r.drop_last() =~= s.drop_last().update(0, with_stake(s[0], staked)));
        assert(r.last() == s.last());
        lemma_total_staked_front(s.drop_last(), staked);
    }
}

/// In a sorted set with positive weights whose front validator has no
/// cached stake, no validator has any.
pub proof fn lemma_front_empty_all_empty(s: Seq<ValidatorView>)
    requires
        weights_positive(s),
        sorted_desc(s),
        s.len() > 0,
        s[0].staked == 0,
    ensures
        total_staked(s) == 0,
        forall|i: int| 0 <= i < s.len() ==> (#[trigger] s[i]).staked == 0,
    decreases s.len(),
{
    assert forall|i: int| 0 <= i < s.len() implies (#[trigger] s[i]).staked == 0 by {
        if i > 0 {
            assert(!ratio_lt(s[0], s[i]));
            let w = s[0].weight as int;
            let x = s[i].staked as int;
            assert(x * w <= 0);
            assert(x == 0) by (nonlinear_arith)
                requires
                    x * w <= 0,
                    w > 0,
                    x >= 0,
            ;
        }
    }
    lemma_all_empty_total(s);
}

/// A set in which no validator has cached stake has a total of zero.
pub proof fn lemma_all_empty_total(s: Seq<ValidatorView>)
    requires
        forall|i: int| 0 <= i < s.len() ==> (#[trigger] s[i]).staked == 0,
    ensures
        total_staked(s) == 0,
    decreases s.len(),
{
    if s.len() > 0 {
        assert forall|i: int| 0 <= i < s.drop_last().len() implies (#[trigger] s.drop_last()[i]).staked
            == 0 by {
            assert(s.drop_last()[i] == s[i]);
        }
        lemma_all_empty_total(s.drop_last());
        assert(s.last() == s[s.len() - 1]);
    }
}

/// Whether an address is listed does not depend on the order: ordering a
/// set lists the addresses it listed before, and a set without repeated
/// addresses stays without them.
pub proof fn lemma_sort_desc_addresses(s: Seq<ValidatorView>)
    ensures
        forall|a: Seq<char>| lists(sort_desc(s), a) <==> lists(s, a),
        unique_addresses(s) ==> unique_addresses(sort_desc(s)),
    decreases s.len(),
{
    if s.len() > 0 {
        let shorter = s.drop_last();
        let t = sort_desc(shorter);
        let x = s.last();
        lemma_sort_desc_addresses(shorter);
        lemma_sort_desc_permutes(shorter);
        lemma_insertion_point_bounds(t, x);
        let j = insertion_point(t, x);
        let r = t.insert(j, x);
        assert forall|a: Seq<char>| lists(r, a) <==> lists(s, a) by {
            if lists(r, a) {
                let i = choose|i: int| 0 <= i < r.len() && (#[trigger] r[i]).address == a;
                if i == j {
                    assert(s[s.len() - 1].address == a);
                } else {
                    let k = if i < j {
                        i
                    } else {
                        i - 1
                    };
                    assert(t[k].address == a);
                    assert(lists(t, a));
                    assert(lists(shorter, a));
                    let m = choose|m: int|
                        0 <= m < shorter.len() && (#[trigger] shorter[m]).address == a;
                    assert(s[m].address == a);
                }
            }
            if lists(s, a) {
                let i = choose|i: int| 0 <= i < s.len() && (#[trigger] s[i]).address == a;
                if i == s.len() - 1 {
                    assert(r[j].address == a);
                } else {
                    assert(shorter[i].address == a);
                    assert(lists(shorter, a));
                    assert(lists(t, a));
                    let k = choose|k: int| 0 <= k < t.len() && (#[trigger] t[k]).address == a;
                    if k < j {
                        assert(r[k].address == a);
                    } else {
                        assert(r[k + 1].address == a);
                    }
                }
            }
        }
        if unique_addresses(s) {
            assert(unique_addresses(shorter)) by {
                assert forall|i: int, k: int|
                    0 <= i < shorter.len() && 0 <= k < shorter.len() && i != k implies (
                #[trigger] shorter[i]).address != (#[trigger] shorter[k]).address by {
                    assert(shorter[i] == s[i] && shorter[k] == s[k]);
                }
            }
            assert(!lists(t, x.address)) by {
                if lists(shorter, x.address) {
                    let m = choose|m: int|
                        0 <= m < shorter.len() && (#[trigger] shorter[m]).address == x.address;
                    assert(s[m].address == s[s.len() - 1].address);
                }
            }
            assert forall|i: int, k: int|
                0 <= i < r.len() && 0 <= k < r.len() && i != k implies (#[trigger] r[i]).address
                != (#[trigger] r[k]).address by {
                let from = |n: int|
                    if n < j {
                        n
                    } else {
                        n - 1
                    };
                if i == j {
                    assert(r[k] == t[from(k)]);
                    assert(t[from(k)].address != x.address);
                } else if k == j {
                    assert(r[i] == t[from(i)]);
                    assert(t[from(i)].address != x.address);
                } else {
                    assert(r[i] == t[from(i)] && r[k] == t[from(k)]);
                }
            }
        }
    }
}

/// Replacing a validator by one with the same address keeps the
/// addresses as they are.
pub proof fn lemma_update_keeps_addresses(s: Seq<ValidatorView>, i: int, v: ValidatorView)
    requires
        0 <= i < s.len(),
        v.address == s[i].address,
    ensures
        unique_addresses(s) ==> unique_addresses(s.update(i, v)),
        forall|a: Seq<char>| lists(s.update(i, v), a) <==> lists(s, a),
{
    let r = s.update(i, v);
    assert forall|k: int| 0 <= k < s.len() implies (#[trigger] r[k]).address == s[k].address by {}
    if unique_addresses(s) {
        assert forall|a: int, b: int| 0 <= a < r.len() && 0 <= b < r.len() && a != b implies (
        #[trigger] r[a]).address != (#[trigger] r[b]).address by {
            assert(r[a].address == s[a].address && r[b].address == s[b].address);
        }
    }
    assert forall|a: Seq<char>| lists(r, a) <==> lists(s, a) by {
        if lists(r, a) {
            let k = choose|k: int| 0 <= k < r.len() && (#[trigger] r[k]).address == a;
            assert(s[k].address == a);
        }
        if lists(s, a) {
            let k = choose|k: int| 0 <= k < s.len() && (#[trigger] s[k]).address == a;
            assert(r[k].address == a);
        }
    }
}

/// A validator without stake and with a positive weight, whose address
/// is not listed yet, can join a valid set at the back.
pub proof fn lemma_push_idle_keeps_valid(s: Seq<ValidatorView>, v: ValidatorView)
    requires
        valid_set(s),
        v.staked == 0,
        v.weight > 0,
        !lists(s, v.address),
    ensures
        valid_set(s.push(v)),
{
    let r = s.push(v);
    assert forall|i: int| 0 <= i < r.len() implies (#[trigger] r[i]).weight > 0 by {
        if i < s.len() {
            assert(r[i] == s[i]);
        }
    }
    assert forall|i: int, j: int| 0 <= i < j < r.len() implies !ratio_lt(
        #[trigger] r[i],
        #[trigger] r[j],
    ) by {
        assert(r[i] == s[i]);
        if j < s.len() {
            assert(r[j] == s[j]);
        } else {
            assert(r[i].staked * v.weight >= 0) by (nonlinear_arith)
                requires
                    r[i].staked >= 0,
                    v.weight >= 0,
            ;
        }
    }
    assert forall|i: int, j: int| 0 <= i < r.len() && 0 <= j < r.len() && i != j implies (
    #[trigger] r[i]).address != (#[trigger] r[j]).address by {
        if i < s.len() && j < s.len() {
            assert(r[i] == s[i] && r[j] == s[j]);
        } else if i < s.len() {
            assert(s[i].address != v.address);
        } else {
            assert(s[j].address != v.address);
        }
    }
}

/// Taking a validator off a set, or replacing one by a validator with a
/// positive weight, leaves every weight positive.
pub proof fn lemma_weights_stay_positive(s: Seq<ValidatorView>, p: int, v: ValidatorView)
    requires
        weights_positive(s),
        0 <= p < s.len(),
        v.weight > 0,
    ensures
        weights_positive(s.remove(p)),
        weights_positive(s.update(p, v)),
        weights_positive(s.push(v)),
{
    assert forall|i: int| 0 <= i < s.remove(p).len() implies (#[trigger] s.remove(p)[i]).weight
        > 0 by {
        if i < p {
            assert(s.remove(p)[i] == s[i]);
        } else {
            assert(s.remove(p)[i] == s[i + 1]);
        }
    }
    assert forall|i: int| 0 <= i < s.len() implies (#[trigger] s.update(p, v)[i]).weight > 0 by {
        if i != p {
            assert(s.update(p, v)[i] == s[i]);
        }
    }
    assert forall|i: int| 0 <= i < s.push(v).len() implies (#[trigger] s.push(v)[i]).weight > 0 by {
        if i < s.len() {
            assert(s.push(v)[i] == s[i]);
        }
    }
}

/// Taking a validator off a valid set leaves a valid set.
pub proof fn lemma_remove_keeps_valid(s: Seq<ValidatorView>, p: int)
    requires
        valid_set(s),
        0 <= p < s.len(),
    ensures
        valid_set(s.remove(p)),
{
    let r = s.remove(p);
    let from = |n: int|
        if n < p {
            n
        } else {
            n + 1
        };
    assert forall|i: int| 0 <= i < r.len() implies #[trigger] r[i] == s[from(i)] by {}
    assert forall|i: int| 0 <= i < r.len() implies (#[trigger] r[i]).weight > 0 by {
        assert(r[i] == s[from(i)]);
    }
    assert forall|i: int, j: int| 0 <= i < j < r.len() implies !ratio_lt(
        #[trigger] r[i],
        #[trigger] r[j],
    ) by {
        assert(r[i] == s[from(i)] && r[j] == s[from(j)]);
    }
    assert forall|i: int, j: int| 0 <= i < r.len() && 0 <= j < r.len() && i != j implies (
    #[trigger] r[i]).address != (#[trigger] r[j]).address by {
        assert(r[i] == s[from(i)] && r[j] == s[from(j)]);
    }
}

/// A validator that carries less than another does not also carry more.
pub proof fn lemma_ratio_asymmetric(a: ValidatorView, b: ValidatorView)
    requires
        ratio_lt(a, b),
    ensures
        !ratio_lt(b, a),
{
}

} // verus!
