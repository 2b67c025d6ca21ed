use vstd::prelude::*;

verus! {

/// The asset of an airdrop: a native denomination or a CW20 token contract.
#[derive(Debug, Clone, PartialEq, Eq)]
pub enum AssetInfo {
    Native(String),
    Cw20(String),
}

/// The configuration of an airdrop.
#[derive(Debug, Clone, PartialEq, Eq)]
pub struct AirdropConfig {
    /// every airdrop has a description
    pub airdrop_description: String,
    /// the amount to be airdropped
    pub airdrop_amount: u128,
    /// the asset to be airdropped
    pub airdrop_asset: AssetInfo,
    /// the amount claimed so far, zero initially
    pub total_claimed: u128,
    /// the height from which users can claim
    pub start_height: u64,
    /// the height after which users cannot claim
    pub end_height: u64,
}

/// What a user may claim, and whether they did.
#[derive(Debug, Clone, Copy, PartialEq, Eq, Structural)]
pub struct UserInfo {
    /// the airdrop tokens the user may claim
    pub claimable_amount: u128,
    /// whether the user has claimed
    pub claimed_flag: bool,
}

impl AirdropConfig {
    pub fn get_start_height(&self) -> (r: u64)
        ensures
            r == self.start_height,
    {
        self.start_height
    }

    /// The start height, as the contract reports it for the end height too.
    pub fn get_end_heights(&self) -> (r: u64)
        ensures
            r == self.start_height,
    {
        self.start_height
    }

    pub fn get_config(self) -> (r: AirdropConfig)
        ensures
            r == self,
    {
        self
    }
}

impl UserInfo {
    pub fn get_claimable_amount(&self) -> (r: u128)
        ensures
            r == self.claimable_amount,
    {
        self.claimable_amount
    }

    pub fn get_claimed_flag(&self) -> (r: bool)
        ensures
            r == self.claimed_flag,
    {
        self.claimed_flag
    }
}

impl Default for UserInfo {
    fn default() -> (r: UserInfo)
        ensures
            r.claimable_amount == 0,
            !r.claimed_flag,
    {
        UserInfo { claimable_amount: 0, claimed_flag: false }
    }
}

/// The users of an airdrop, each address at most once.
#[derive(Debug, Clone, PartialEq, Eq)]
pub struct UserTable {
    entries: Vec<(String, UserInfo)>,
}

/// No address occurs twice.
pub open spec fn keys_distinct(s: Seq<(String, UserInfo)>) -> bool {
    forall|i: int, j: int| 0 <= i < j < s.len() ==> (#[trigger] s[i]).0@ != (#[trigger] s[j]).0@
}

/// The users as a map from address to what they may claim.
pub open spec fn entries_map(s: Seq<(String, UserInfo)>) -> Map<Seq<char>, UserInfo>
    decreases s.len(),
{
    if s.len() == 0 {
        Map::empty()
    } else {
        entries_map(s.drop_last()).insert(s.last().0@, s.last().1)
    }
}

/// The amount the users who have not claimed may still claim.
pub open spec fn unclaimed_total(s: Seq<(String, UserInfo)>) -> int
    decreases s.len(),
{
    if s.len() == 0 {
        0
    } else {
        unclaimed_total(s.drop_last()) + if s.last().1.claimed_flag { 0 } else { s.last().1.claimable_amount as int }
    }
}

/// The address at `i` is the one at no other place, and the map holds its entry.
proof fn lemma_entries_map_index(s: Seq<(String, UserInfo)>, i: int)
    requires
        keys_distinct(s),
        0 <= i < s.len(),
    ensures
        entries_map(s).contains_key(s[i].0@),
        entries_map(s)[s[i].0@] == s[i].1,
    decreases s.len(),
{
    if i < s.len() - 1 {
        assert(keys_distinct(s.drop_last()));
        lemma_entries_map_index(s.drop_last(), i);
        assert(s[i].0@ != s.last().0@);
    }
}

/// An address at no place is not in the map.
proof fn lemma_entries_map_absent(s: Seq<(String, UserInfo)>, k: Seq<char>)
    requires
        forall|i: int| 0 <= i < s.len() ==> (#[trigger] s[i]).0@ != k,
    ensures
        !entries_map(s).contains_key(k),
    decreases s.len(),
{
    if s.len() > 0 {
        lemma_entries_map_absent(s.drop_last(), k);
    }
}

/// The map has exactly the addresses of the entries.
proof fn lemma_entries_map_domain(s: Seq<(String, UserInfo)>, k: Seq<char>)
    ensures
        entries_map(s).contains_key(k) <==> exists|i: int| 0 <= i < s.len() && (#[trigger] s[i]).0@ == k,
    decreases s.len(),
{
    if s.len() > 0 {
        lemma_entries_map_domain(s.drop_last(), k);
        if entries_map(s.drop_last()).contains_key(k) {
            let i = choose|i: int| 0 <= i < s.drop_last().len() && (#[trigger] s.drop_last()[i]).0@ == k;
            assert(s[i].0@ == k);
        }
        if exists|i: int| 0 <= i < s.len() && (#[trigger] s[i]).0@ == k {
            let i = choose|i: int| 0 <= i < s.len() && (#[trigger] s[i]).0@ == k;
            if i < s.len() - 1 {
                assert(s.drop_last()[i].0@ == k);
            }
        }
    }
}

/// Replacing the entry at `i` replaces its value in the map.
proof fn lemma_entries_map_update(s: Seq<(String, UserInfo)>, i: int, v: UserInfo)
    requires
        keys_distinct(s),
        0 <= i < s.len(),
    ensures
        keys_distinct(s.update(i, (s[i].0, v))),
        entries_map(s.update(i, (s[i].0, v))) =~= entries_map(s).insert(s[i].0@, v),
    decreases s.len(),
{
    let t = s.update(i, (s[i].0, v));
    assert forall|a: int, b: int| 0 <= a < b < t.len() implies (#[trigger] t[a]).0@ != (#[trigger] t[b]).0@ by {
        assert(s[a].0@ != s[b].0@);
    }
    if i == s.len() - 1 {
        assert(t.drop_last() =~= s.drop_last());
    } else {
        assert(keys_distinct(s.drop_last()));
        lemma_entries_map_update(s.drop_last(), i, v);
        assert(t.drop_last() =~= s.drop_last().update(i, (s[i].0, v)));
        assert(s[i].0@ != s.last().0@);
    }
}

/// Removing the entry at `i` removes its address from the map.
proof fn lemma_entries_map_remove(s: Seq<(String, UserInfo)>, i: int)
    requires
        keys_distinct(s),
        0 <= i < s.len(),
    ensures
        keys_distinct(s.remove(i)),
        entries_map(s.remove(i)) =~= entries_map(s).remove(s[i].0@),
    decreases s.len(),
{
    let t = s.remove(i);
    assert forall|a: int, b: int| 0 <= a < b < t.len() implies (#[trigger] t[a]).0@ != (#[trigger] t[b]).0@ by {
        let a2 = if a < i { a } else { a + 1 };
        let b2 = if b < i { b } else { b + 1 };
        assert(t[a] == s[a2] && t[b] == s[b2]);
        assert(s[a2].0@ != s[b2].0@);
    }
    if i == s.len() - 1 {
        assert(t =~= s.drop_last());
        assert forall|j: int| 0 <= j < s.drop_last().len() implies (#[trigger] s.drop_last()[j]).0@ != s[i].0@ by {
            assert(s[j].0@ != s[i].0@);
        }
        lemma_entries_map_absent(s.drop_last(), s[i].0@);
    } else {
        assert(keys_distinct(s.drop_last()));
        lemma_entries_map_remove(s.drop_last(), i);
        assert(t.drop_last() =~= s.drop_last().remove(i));
        assert(t.last() == s.last());
        assert(s[i].0@ != s.last().0@);
    }
}

impl UserTable {
    /// The users as a map from address to what they may claim.
    pub closed spec fn spec_map(&self) -> Map<Seq<char>, UserInfo> {
        entries_map(self.entries@)
    }

    /// The entries in the order they were added.
    pub closed spec fn spec_entries(&self) -> Seq<(String, UserInfo)> {
        self.entries@
    }

    /// The table is well formed: no address occurs twice.
    pub closed spec fn wf(&self) -> bool {
        keys_distinct(self.entries@)
    }

    /// The amount that users who have not claimed may claim.
    pub open spec fn spec_unclaimed(&self) -> int {
        unclaimed_total(self.spec_entries())
    }

    /// An empty table.
    pub fn new() -> (r: UserTable)
        ensures
            r.wf(),
            r.spec_map() =~= Map::<Seq<char>, UserInfo>::empty(),
            r.spec_entries().len() == 0,
    {
        UserTable { entries: Vec::new() }
    }

    /// The entries, in the order they were added.
    pub fn entries(&self) -> (r: &Vec<(String, UserInfo)>)
        ensures
            r@ == self.spec_entries(),
    {
        &self.entries
    }

    fn position(&self, user: &String) -> (r: Option<usize>)
        requires
            self.wf(),
        ensures
            match r {
                Some(i) => i < self.entries@.len() && self.entries@[i as int].0@ == user@,
                None => forall|j: int| 0 <= j < self.entries@.len() ==> (#[trigger] self.entries@[j]).0@ != user@,
            },
    {
        let mut i: usize = 0;
        while i < self.entries.len()
            invariant
                i <= self.entries@.len(),
                forall|j: int| 0 <= j < i ==> (#[trigger] self.entries@[j]).0@ != user@,
            decreases self.entries@.len() - i,
        {
            if self.entries[i].0 == *user {
                return Some(i);
            }
            i = i + 1;
        }
        None
    }

    /// What `user` may claim, if they are in the table.
    pub fn get(&self, user: &String) -> (r: Option<UserInfo>)
        requires
            self.wf(),
        ensures
            r == (if self.spec_map().contains_key(user@) { Some(self.spec_map()[user@]) } else { None::<UserInfo> }),
    {
        match self.position(user) {
            Some(i) => {
                proof { lemma_entries_map_index(self.entries@, i as int); }
                Some(self.entries[i].1)
            },
            None => {
                proof { lemma_entries_map_absent(self.entries@, user@); }
                None
            },
        }
    }

    /// Sets what `user` may claim, adding them when they are new.
    pub fn set(&mut self, user: String, info: UserInfo)
        requires
            old(self).wf(),
        ensures
            final(self).wf(),
            final(self).spec_map() =~= old(self).spec_map().insert(user@, info),
            final(self).spec_unclaimed() == old(self).spec_unclaimed() + unclaimed_part(info)
                - (if old(self).spec_map().contains_key(user@) { unclaimed_part(old(self).spec_map()[user@]) } else { 0 }),
    {
        match self.position(&user) {
            Some(i) => {
                proof {
                    lemma_entries_map_update(self.entries@, i as int, info);
                    lemma_entries_map_index(self.entries@, i as int);
                    lemma_unclaimed_update(self.entries@, i as int, info);
                }
                let key = self.entries[i].0.clone();
                self.entries.set(i, (key, info));
            },
            None => {
                proof {
                    lemma_entries_map_absent(self.entries@, user@);
                    assert(self.entries@.push((user, info)).drop_last() =~= self.entries@);
                    assert forall|a: int, b: int| 0 <= a < b < self.entries@.push((user, info)).len() implies
                        (#[trigger] self.entries@.push((user, info))[a]).0@ != (#[trigger] self.entries@.push((user, info))[b]).0@ by {
                        if b == self.entries@.len() {
                            assert(self.entries@[a].0@ != user@);
                        }
                    }
                    assert(self.entries@.push((user, info)).drop_last() =~= self.entries@);
                }
                self.entries.push((user, info));
            },
        }
    }

    /// Removes `user` from the table.
    pub fn remove(&mut self, user: &String)
        requires
            old(self).wf(),
        ensures
            final(self).wf(),
            final(self).spec_map() =~= old(self).spec_map().remove(user@),
            final(self).spec_unclaimed() == old(self).spec_unclaimed()
                - (if old(self).spec_map().contains_key(user@) { unclaimed_part(old(self).spec_map()[user@]) } else { 0 }),
    {
        match self.position(user) {
            Some(i) => {
                proof {
                    lemma_entries_map_remove(self.entries@, i as int);
                    lemma_entries_map_index(self.entries@, i as int);
                    lemma_unclaimed_remove(self.entries@, i as int);
                }
                self.entries.remove(i);
            },
            None => {
                proof { lemma_entries_map_absent(self.entries@, user@); }
            },
        }
    }

    /// The amount the users who have not claimed may claim; it must fit
    /// in 128 bits, as the sum panics otherwise.
    pub fn total_unclaimed(&self) -> (r: u128)
        requires
            self.spec_unclaimed() <= u128::MAX,
        ensures
            r == self.spec_unclaimed(),
    {
        let ghost s = self.entries@;
        let mut total: u128 = 0;
        let mut i: usize = 0;
        while i < self.entries.len()
            invariant
                s == self.entries@,
                unclaimed_total(s) <= u128::MAX,
                i <= s.len(),
                total == unclaimed_total(s.subrange(0, i as int)),
            decreases s.len() - i,
        {
            proof {
                assert(s.subrange(0, i + 1).drop_last() =~= s.subrange(0, i as int));
                lemma_unclaimed_prefix(s, i + 1);
            }
            if !self.entries[i].1.claimed_flag {
                total = total + self.entries[i].1.claimable_amount;
            }
            i = i + 1;
        }
        assert(s.subrange(0, s.len() as int) =~= s);
        total
    }
}

/// What a user may still claim: nothing once they claimed.
pub open spec fn unclaimed_part(info: UserInfo) -> int {
    if info.claimed_flag { 0 } else { info.claimable_amount as int }
}

proof fn lemma_unclaimed_update(s: Seq<(String, UserInfo)>, i: int, v: UserInfo)
    requires
        0 <= i < s.len(),
    ensures
        unclaimed_total(s.update(i, (s[i].0, v))) == unclaimed_total(s) + unclaimed_part(v) - unclaimed_part(s[i].1),
    decreases s.len(),
{
    let t = s.update(i, (s[i].0, v));
    if i == s.len() - 1 {
        assert(t.drop_last() =~= s.drop_last());
    } else {
        lemma_unclaimed_update(s.drop_last(), i, v);
        assert(t.drop_last() =~= s.drop_last().update(i, (s[i].0, v)));
    }
}

proof fn lemma_unclaimed_remove(s: Seq<(String, UserInfo)>, i: int)
    requires
        0 <= i < s.len(),
    ensures
        unclaimed_total(s.remove(i)) == unclaimed_total(s) - unclaimed_part(s[i].1),
    decreases s.len(),
{
    let t = s.remove(i);
    if i == s.len() - 1 {
        assert(t =~= s.drop_last());
    } else {
        lemma_unclaimed_remove(s.drop_last(), i);
        assert(t.drop_last() =~= s.drop_last().remove(i));
        assert(t.last() == s.last());
    }
}

/// The unclaimed amount of a prefix is at most that of the whole.
proof fn lemma_unclaimed_prefix(s: Seq<(String, UserInfo)>, k: int)
    requires
        0 <= k <= s.len(),
    ensures
        0 <= unclaimed_total(s.subrange(0, k)) <= unclaimed_total(s),
    decreases s.len() - k,
{
    if k < s.len() {
        lemma_unclaimed_prefix(s, k + 1);
        assert(s.subrange(0, k + 1).drop_last() =~= s.subrange(0, k));
        lemma_unclaimed_nonneg(s.subrange(0, k));
    } else {
        assert(s.subrange(0, k) =~= s);
        lemma_unclaimed_nonneg(s);
    }
}

proof fn lemma_unclaimed_nonneg(s: Seq<(String, UserInfo)>)
    ensures
        unclaimed_total(s) >= 0,
    decreases s.len(),
{
    if s.len() > 0 {
        lemma_unclaimed_nonneg(s.drop_last());
    }
}

} // verus!
