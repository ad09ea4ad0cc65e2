//! Lazily populated, append-only views over externally supplied account and
//! block-hash data.
//!
//! A read of an uncommitted key never defaults silently: it signals a
//! requirement naming the missing fact. Committing adds facts monotonically;
//! a second commitment for the same key fails with a commit error.
use vstd::prelude::*;
use crate::word::{Address, Word};
use crate::errors::{CommitError, RequireError};
use crate::util::{copy_bytes, copy_word_pairs};

verus! {

/// One unit of externally supplied account data.
pub enum AccountCommitment {
    /// The full account: balance, nonce and code.
    Full { address: Address, balance: Word, nonce: Word, code: Vec<u8> },
    /// The account's code alone.
    Code { address: Address, code: Vec<u8> },
    /// One storage slot of the account.
    Storage { address: Address, index: Word, value: Word },
    /// The account does not exist.
    Nonexist(Address),
}

/// Mathematical model of the facts recorded for one account.
#[verifier::ext_equal]
pub ghost struct AccountModel {
    pub address: nat,
    /// Balance and nonce, when committed.
    pub basic: Option<(nat, nat)>,
    pub code: Option<Seq<u8>>,
    pub existence: Option<bool>,
    /// The storage slots supplied from outside.
    pub storage_committed: Seq<(nat, nat)>,
    /// The slots' current values, including writes made during execution.
    pub storage_current: Seq<(nat, nat)>,
}

/// Whether a key occurs in a slot list.
pub open spec fn slot_has(s: Seq<(nat, nat)>, k: nat) -> bool {
    exists|j: int| 0 <= j < s.len() && s[j].0 == k
}

/// The value recorded for a key in a slot list.
pub open spec fn slot_val(s: Seq<(nat, nat)>, k: nat) -> nat {
    s[choose|j: int| 0 <= j < s.len() && s[j].0 == k].1
}

/// Whether every key occurs at most once.
pub open spec fn slots_unique(s: Seq<(nat, nat)>) -> bool {
    forall|i: int, j: int| 0 <= i < j < s.len() ==> s[i].0 != s[j].0
}

/// Whether an account occurs in a record list.
pub open spec fn acct_has(m: Seq<AccountModel>, a: nat) -> bool {
    exists|j: int| 0 <= j < m.len() && m[j].address == a
}

/// The record for an account.
pub open spec fn acct_of(m: Seq<AccountModel>, a: nat) -> AccountModel {
    m[choose|j: int| 0 <= j < m.len() && m[j].address == a]
}

/// Whether every account occurs at most once.
pub open spec fn accts_unique(m: Seq<AccountModel>) -> bool {
    forall|i: int, j: int| 0 <= i < j < m.len() ==> m[i].address != m[j].address
}

/// The committed balance of an account, if known.
pub open spec fn balance_of(m: Seq<AccountModel>, a: nat) -> Option<nat> {
    if acct_has(m, a) && acct_of(m, a).basic is Some {
        Some((acct_of(m, a).basic->0).0)
    } else {
        None
    }
}

/// The committed nonce of an account, if known.
pub open spec fn nonce_of(m: Seq<AccountModel>, a: nat) -> Option<nat> {
    if acct_has(m, a) && acct_of(m, a).basic is Some {
        Some((acct_of(m, a).basic->0).1)
    } else {
        None
    }
}

/// The committed code of an account, if known.
pub open spec fn code_of(m: Seq<AccountModel>, a: nat) -> Option<Seq<u8>> {
    if acct_has(m, a) && acct_of(m, a).code is Some {
        Some(acct_of(m, a).code->0)
    } else {
        None
    }
}

/// Whether the account is known to exist or not to exist.
pub open spec fn exists_of(m: Seq<AccountModel>, a: nat) -> Option<bool> {
    if acct_has(m, a) && acct_of(m, a).existence is Some {
        acct_of(m, a).existence
    } else {
        None
    }
}

/// The current value of a storage slot, if readable: a committed or
/// written slot, or any slot of an account known not to exist.
pub open spec fn storage_of(m: Seq<AccountModel>, a: nat, k: nat) -> Option<nat> {
    if acct_has(m, a) {
        if slot_has(acct_of(m, a).storage_current, k) {
            Some(slot_val(acct_of(m, a).storage_current, k))
        } else if acct_of(m, a).existence == Some(false) {
            Some(0)
        } else {
            None
        }
    } else {
        None
    }
}

/// Whether a commitment contradicts what is already recorded: some fact
/// for the same key was committed before.
pub open spec fn commit_conflicts(m: Seq<AccountModel>, c: AccountCommitment) -> bool {
    match c {
        AccountCommitment::Full { address, .. } => {
            let a = address.value();
            acct_has(m, a) && (acct_of(m, a).basic is Some || acct_of(m, a).code is Some)
        },
        AccountCommitment::Code { address, .. } => {
            let a = address.value();
            acct_has(m, a) && acct_of(m, a).code is Some
        },
        AccountCommitment::Storage { address, index, .. } => {
            let a = address.value();
            acct_has(m, a) && (slot_has(acct_of(m, a).storage_committed, index.value()) || acct_of(
                m,
                a,
            ).existence == Some(false))
        },
        AccountCommitment::Nonexist(address) => {
            let a = address.value();
            acct_has(m, a) && (acct_of(m, a).basic is Some || acct_of(m, a).code is Some || acct_of(
                m,
                a,
            ).existence is Some || acct_of(m, a).storage_committed.len() > 0)
        },
    }
}

/// The views of every account other than `a` are untouched between two
/// record lists.
pub open spec fn others_unchanged(m1: Seq<AccountModel>, m2: Seq<AccountModel>, a: nat) -> bool {
    forall|x: nat|
        x != a ==> {
            &&& #[trigger] balance_of(m2, x) == balance_of(m1, x)
            &&& nonce_of(m2, x) == nonce_of(m1, x)
            &&& code_of(m2, x) == code_of(m1, x)
            &&& exists_of(m2, x) == exists_of(m1, x)
            &&& forall|k: nat| #[trigger] storage_of(m2, x, k) == storage_of(m1, x, k)
        }
}

/// The record holding the facts for one account.
pub struct AccountRecord {
    pub address: Address,
    pub basic: Option<(Word, Word)>,
    pub code: Option<Vec<u8>>,
    pub existence: Option<bool>,
    pub storage_committed: Vec<(Word, Word)>,
    pub storage_current: Vec<(Word, Word)>,
}

/// The model of a slot vector.
pub open spec fn slots_model(s: Seq<(Word, Word)>) -> Seq<(nat, nat)> {
    Seq::new(s.len(), |i: int| (s[i].0.value(), s[i].1.value()))
}

impl AccountRecord {
    /// The model of this record.
    pub open spec fn model(self) -> AccountModel {
        AccountModel {
            address: self.address.value(),
            basic: match self.basic {
                Some(p) => Some((p.0.value(), p.1.value())),
                None => None,
            },
            code: match self.code {
                Some(c) => Some(c@),
                None => None,
            },
            existence: self.existence,
            storage_committed: slots_model(self.storage_committed@),
            storage_current: slots_model(self.storage_current@),
        }
    }
}


/// A slot list with unique keys reads back the pair at any index.
proof fn lemma_slot_at(s: Seq<(nat, nat)>, i: int)
    requires
        slots_unique(s),
        0 <= i < s.len(),
    ensures
        slot_has(s, s[i].0),
        slot_val(s, s[i].0) == s[i].1,
{
    assert(slot_has(s, s[i].0));
    let j = choose|j: int| 0 <= j < s.len() && s[j].0 == s[i].0;
    if j != i {
        if j < i {
            assert(s[j].0 != s[i].0);
        } else {
            assert(s[i].0 != s[j].0);
        }
        assert(false);
    }
}

/// A record list with unique addresses finds the record at any index.
proof fn lemma_acct_at(m: Seq<AccountModel>, i: int)
    requires
        accts_unique(m),
        0 <= i < m.len(),
    ensures
        acct_has(m, m[i].address),
        acct_of(m, m[i].address) == m[i],
{
    assert(acct_has(m, m[i].address));
    let j = choose|j: int| 0 <= j < m.len() && m[j].address == m[i].address;
    if j != i {
        if j < i {
            assert(m[j].address != m[i].address);
        } else {
            assert(m[i].address != m[j].address);
        }
        assert(false);
    }
}

/// Equal lookups for every other address give untouched views for them.
proof fn lemma_views_others(m1: Seq<AccountModel>, m2: Seq<AccountModel>, a: nat)
    requires
        forall|x: nat| x != a ==> #[trigger] acct_has(m2, x) == acct_has(m1, x),
        forall|x: nat| x != a && acct_has(m1, x) ==> #[trigger] acct_of(m2, x) == acct_of(m1, x),
    ensures
        others_unchanged(m1, m2, a),
{
    assert forall|x: nat| x != a implies {
        &&& #[trigger] balance_of(m2, x) == balance_of(m1, x)
        &&& nonce_of(m2, x) == nonce_of(m1, x)
        &&& code_of(m2, x) == code_of(m1, x)
        &&& exists_of(m2, x) == exists_of(m1, x)
        &&& forall|k: nat| #[trigger] storage_of(m2, x, k) == storage_of(m1, x, k)
    } by {
        assert(acct_has(m2, x) == acct_has(m1, x));
        if acct_has(m1, x) {
            assert(acct_of(m2, x) == acct_of(m1, x));
        }
    }
}

/// Find the index of a slot with the given key.
#[verifier::loop_isolation(false)]
fn find_slot(v: &Vec<(Word, Word)>, k: &Word) -> (r: Option<usize>)
    ensures
        r is Some <==> slot_has(slots_model(v@), k.value()),
        r matches Some(i) ==> 0 <= i < v@.len() && slots_model(v@)[i as int].0 == k.value(),
{
    let mut i: usize = 0;
    while i < v.len()
        invariant
            0 <= i <= v@.len(),
            forall|j: int| 0 <= j < i ==> slots_model(v@)[j].0 != k.value(),
        decreases v@.len() - i,
    {
        if v[i].0.eq_word(k) {
            proof {
                assert(slots_model(v@)[i as int].0 == k.value());
            }
            return Some(i);
        }
        proof {
            assert(slots_model(v@)[i as int].0 != k.value());
        }
        i = i + 1;
    }
    proof {
        if slot_has(slots_model(v@), k.value()) {
            let j = choose|j: int|
                0 <= j < slots_model(v@).len() && slots_model(v@)[j].0 == k.value();
            assert(false);
        }
    }
    None
}

/// A value-identical copy of one account record.
fn copy_record(rec: &AccountRecord) -> (r: AccountRecord)
    ensures
        r.model() == rec.model(),
{
    let code: Option<Vec<u8>> = match &rec.code {
        Some(cv) => Some(copy_bytes(cv)),
        None => None,
    };
    let r = AccountRecord {
        address: rec.address,
        basic: rec.basic,
        code,
        existence: rec.existence,
        storage_committed: copy_word_pairs(&rec.storage_committed),
        storage_current: copy_word_pairs(&rec.storage_current),
    };
    proof {
        assert(r.model() =~~= rec.model());
    }
    r
}

/// The account commit cache: committed facts plus storage writes made
/// during execution.
pub struct AccountState {
    records: Vec<AccountRecord>,
}

/// Adding a record with a fresh address keeps lookups of all other
/// addresses, and makes the new record the one found for its address.
proof fn lemma_lookup_push(m1: Seq<AccountModel>, r: AccountModel)
    requires
        accts_unique(m1),
        !acct_has(m1, r.address),
    ensures
        accts_unique(m1.push(r)),
        forall|x: nat| x != r.address ==> #[trigger] acct_has(m1.push(r), x) == acct_has(m1, x),
        forall|x: nat|
            x != r.address && acct_has(m1, x) ==> #[trigger] acct_of(m1.push(r), x) == acct_of(
                m1,
                x,
            ),
        acct_has(m1.push(r), r.address),
        acct_of(m1.push(r), r.address) == r,
{
    let m2 = m1.push(r);
    assert(m2[m1.len() as int] == r);
    assert forall|i: int, j: int| 0 <= i < j < m2.len() implies m2[i].address != m2[j].address by {
        if j < m1.len() {
        } else {
            assert(m2[j] == r);
            if m2[i].address == r.address {
                assert(acct_has(m1, r.address));
            }
        }
    }
    assert forall|x: nat| x != r.address implies #[trigger] acct_has(m2, x) == acct_has(m1, x) by {
        if acct_has(m2, x) {
            let j = choose|j: int| 0 <= j < m2.len() && m2[j].address == x;
            assert(j < m1.len());
            assert(m1[j].address == x);
        }
        if acct_has(m1, x) {
            let j = choose|j: int| 0 <= j < m1.len() && m1[j].address == x;
            assert(m2[j].address == x);
        }
    }
    assert forall|x: nat| x != r.address && acct_has(m1, x) implies #[trigger] acct_of(m2, x)
        == acct_of(m1, x) by {
        let j1 = choose|j: int| 0 <= j < m1.len() && m1[j].address == x;
        let j2 = choose|j: int| 0 <= j < m2.len() && m2[j].address == x;
        assert(m2[j1].address == x);
        assert(j2 < m1.len());
        if j1 != j2 {
            if j1 < j2 {
                assert(m1[j1].address != m1[j2].address);
            } else {
                assert(m1[j2].address != m1[j1].address);
            }
            assert(false);
        }
    }
    assert(acct_has(m2, r.address)) by {
        assert(m2[m1.len() as int].address == r.address);
    }
    let jr = choose|j: int| 0 <= j < m2.len() && m2[j].address == r.address;
    if jr != m1.len() {
        assert(m1[jr].address == r.address);
        assert(acct_has(m1, r.address));
        assert(false);
    }
}

/// Replacing a record by one for the same address keeps lookups of all
/// other addresses, and makes the new record the one found for it.
proof fn lemma_lookup_update(m1: Seq<AccountModel>, i: int, r: AccountModel)
    requires
        accts_unique(m1),
        0 <= i < m1.len(),
        r.address == m1[i].address,
    ensures
        accts_unique(m1.update(i, r)),
        forall|x: nat| #[trigger] acct_has(m1.update(i, r), x) == acct_has(m1, x),
        forall|x: nat|
            x != r.address && acct_has(m1, x) ==> #[trigger] acct_of(m1.update(i, r), x) == acct_of(
                m1,
                x,
            ),
        acct_has(m1, r.address),
        acct_of(m1.update(i, r), r.address) == r,
{
    let m2 = m1.update(i, r);
    assert(m2[i] == r);
    assert forall|ii: int, j: int| 0 <= ii < j < m2.len() implies m2[ii].address
        != m2[j].address by {
        assert(m1[ii].address != m1[j].address);
    }
    assert forall|x: nat| #[trigger] acct_has(m2, x) == acct_has(m1, x) by {
        if acct_has(m2, x) {
            let j = choose|j: int| 0 <= j < m2.len() && m2[j].address == x;
            assert(m1[j].address == x);
        }
        if acct_has(m1, x) {
            let j = choose|j: int| 0 <= j < m1.len() && m1[j].address == x;
            assert(m2[j].address == x);
        }
    }
    assert forall|x: nat| x != r.address && acct_has(m1, x) implies #[trigger] acct_of(m2, x)
        == acct_of(m1, x) by {
        let j1 = choose|j: int| 0 <= j < m1.len() && m1[j].address == x;
        let j2 = choose|j: int| 0 <= j < m2.len() && m2[j].address == x;
        assert(m2[j1].address == x);
        assert(m1[j2].address == x);
        if j1 != j2 {
            if j1 < j2 {
                assert(m1[j1].address != m1[j2].address);
            } else {
                assert(m1[j2].address != m1[j1].address);
            }
            assert(false);
        }
        assert(j1 != i && j2 != i);
    }
    assert(m1[i].address == r.address);
    let jr = choose|j: int| 0 <= j < m2.len() && m2[j].address == r.address;
    if jr != i {
        assert(m1[jr].address == r.address);
        if jr < i {
            assert(m1[jr].address != m1[i].address);
        } else {
            assert(m1[i].address != m1[jr].address);
        }
        assert(false);
    }
}

/// Adding a slot with a fresh key keeps the other slots' values and makes
/// the key read back the added value.
proof fn lemma_slot_push(s1: Seq<(nat, nat)>, k: nat, v: nat)
    requires
        slots_unique(s1),
        !slot_has(s1, k),
    ensures
        slots_unique(s1.push((k, v))),
        forall|x: nat| x != k ==> #[trigger] slot_has(s1.push((k, v)), x) == slot_has(s1, x),
        forall|x: nat|
            x != k && slot_has(s1, x) ==> #[trigger] slot_val(s1.push((k, v)), x) == slot_val(
                s1,
                x,
            ),
        slot_has(s1.push((k, v)), k),
        slot_val(s1.push((k, v)), k) == v,
{
    let s2 = s1.push((k, v));
    assert(s2[s1.len() as int] == (k, v));
    assert forall|i: int, j: int| 0 <= i < j < s2.len() implies s2[i].0 != s2[j].0 by {
        if j < s1.len() {
        } else {
            if s2[i].0 == k {
                assert(slot_has(s1, k));
            }
        }
    }
    assert forall|x: nat| x != k implies #[trigger] slot_has(s2, x) == slot_has(s1, x) by {
        if slot_has(s2, x) {
            let j = choose|j: int| 0 <= j < s2.len() && s2[j].0 == x;
            assert(j < s1.len());
            assert(s1[j].0 == x);
        }
        if slot_has(s1, x) {
            let j = choose|j: int| 0 <= j < s1.len() && s1[j].0 == x;
            assert(s2[j].0 == x);
        }
    }
    assert forall|x: nat| x != k && slot_has(s1, x) implies #[trigger] slot_val(s2, x) == slot_val(
        s1,
        x,
    ) by {
        let j1 = choose|j: int| 0 <= j < s1.len() && s1[j].0 == x;
        let j2 = choose|j: int| 0 <= j < s2.len() && s2[j].0 == x;
        assert(s2[j1].0 == x);
        assert(j2 < s1.len());
        if j1 != j2 {
            if j1 < j2 {
                assert(s1[j1].0 != s1[j2].0);
            } else {
                assert(s1[j2].0 != s1[j1].0);
            }
            assert(false);
        }
    }
    assert(slot_has(s2, k)) by {
        assert(s2[s1.len() as int].0 == k);
    }
    let jk = choose|j: int| 0 <= j < s2.len() && s2[j].0 == k;
    if jk != s1.len() {
        assert(s1[jk].0 == k);
        assert(slot_has(s1, k));
        assert(false);
    }
}

/// Overwriting the slot at an index keeps the other slots' values and
/// makes its key read back the new value.
proof fn lemma_slot_update(s1: Seq<(nat, nat)>, i: int, k: nat, v: nat)
    requires
        slots_unique(s1),
        0 <= i < s1.len(),
        s1[i].0 == k,
    ensures
        slots_unique(s1.update(i, (k, v))),
        forall|x: nat| #[trigger] slot_has(s1.update(i, (k, v)), x) == slot_has(s1, x),
        forall|x: nat|
            x != k && slot_has(s1, x) ==> #[trigger] slot_val(s1.update(i, (k, v)), x) == slot_val(
                s1,
                x,
            ),
        slot_has(s1.update(i, (k, v)), k),
        slot_val(s1.update(i, (k, v)), k) == v,
{
    let s2 = s1.update(i, (k, v));
    assert(s2[i] == (k, v));
    assert forall|ii: int, j: int| 0 <= ii < j < s2.len() implies s2[ii].0 != s2[j].0 by {
        assert(s1[ii].0 != s1[j].0);
    }
    assert forall|x: nat| #[trigger] slot_has(s2, x) == slot_has(s1, x) by {
        if slot_has(s2, x) {
            let j = choose|j: int| 0 <= j < s2.len() && s2[j].0 == x;
            assert(s1[j].0 == x || j == i);
            if j == i {
                assert(s1[i].0 == k && x == k);
            }
            assert(slot_has(s1, x));
        }
        if slot_has(s1, x) {
            let j = choose|j: int| 0 <= j < s1.len() && s1[j].0 == x;
            if j == i {
                assert(s2[i].0 == k && x == k);
            } else {
                assert(s2[j].0 == x);
            }
            assert(slot_has(s2, x));
        }
    }
    assert forall|x: nat| x != k && slot_has(s1, x) implies #[trigger] slot_val(s2, x) == slot_val(
        s1,
        x,
    ) by {
        assert(slot_has(s2, x));
        let j1 = choose|j: int| 0 <= j < s1.len() && s1[j].0 == x;
        let j2 = choose|j: int| 0 <= j < s2.len() && s2[j].0 == x;
        assert(s1[j1].0 == x && s2[j2].0 == x);
        assert(j1 != i && j2 != i);
        assert(s2[j1].0 == x);
        assert(s1[j2].0 == x);
        if j1 != j2 {
            if j1 < j2 {
                assert(s1[j1].0 != s1[j2].0);
            } else {
                assert(s1[j2].0 != s1[j1].0);
            }
            assert(false);
        }
    }
    let jk = choose|j: int| 0 <= j < s2.len() && s2[j].0 == k;
    assert(s2[i].0 == k);
    if jk != i {
        if jk < i {
            assert(s1[jk].0 != s1[i].0);
            assert(s2[jk].0 == s1[jk].0);
        } else {
            assert(s1[i].0 != s1[jk].0);
            assert(s2[jk].0 == s1[jk].0);
        }
        assert(false);
    }
}

impl AccountState {
    /// The model of this cache: one record model per account.
    pub open spec fn model(self) -> Seq<AccountModel> {
        Seq::new(self.records_spec().len(), |i: int| self.records_spec()[i].model())
    }

    /// The records held.
    pub closed spec fn records_spec(self) -> Seq<AccountRecord> {
        self.records@
    }

    /// Every account occurs once, every slot list has unique keys, and a
    /// slot has a current value only when it was committed or the account
    /// is known not to exist.
    pub open spec fn wf(self) -> bool {
        &&& accts_unique(self.model())
        &&& forall|i: int|
            0 <= i < self.model().len() ==> {
                &&& slots_unique(#[trigger] self.model()[i].storage_committed)
                &&& slots_unique(self.model()[i].storage_current)
                &&& forall|k: nat|
                    #[trigger] slot_has(self.model()[i].storage_current, k) ==> slot_has(
                        self.model()[i].storage_committed,
                        k,
                    ) || self.model()[i].existence == Some(false)
                &&& (self.model()[i].existence == Some(false) ==> self.model()[i].basic is Some
                    && self.model()[i].code is Some)
            }
    }

    /// An empty cache: no facts committed.
    pub fn new() -> (r: AccountState)
        ensures
            r.wf(),
            r.model() =~= Seq::<AccountModel>::empty(),
    {
        AccountState { records: Vec::new() }
    }

    /// Find the index of the record for an address.
    fn find(&self, a: &Address) -> (r: Option<usize>)
        ensures
            r is Some <==> acct_has(self.model(), a.value()),
            r matches Some(i) ==> 0 <= i < self.model().len() && self.model()[i as int].address
                == a.value(),
    {
        let mut i: usize = 0;
        while i < self.records.len()
            invariant
                0 <= i <= self.records_spec().len(),
                self.model().len() == self.records_spec().len(),
                forall|j: int| 0 <= j < i ==> self.model()[j].address != a.value(),
            decreases self.records_spec().len() - i,
        {
            if self.records[i].address.eq_address(a) {
                return Some(i);
            }
            i = i + 1;
        }
        proof {
            if acct_has(self.model(), a.value()) {
                let j = choose|j: int|
                    0 <= j < self.model().len() && self.model()[j].address == a.value();
                assert(false);
            }
        }
        None
    }

    /// Commit one unit of account data. Fails when a fact for the same
    /// key was already committed, leaving the cache unchanged; committing
    /// otherwise only adds facts.
    #[verifier::rlimit(80)]
    #[verifier::spinoff_prover]
    pub fn commit(&mut self, c: AccountCommitment) -> (r: Result<(), CommitError>)
        requires
            old(self).wf(),
        ensures
            final(self).wf(),
            r is Ok <==> !commit_conflicts(old(self).model(), c),
            r is Err ==> r == Err::<(), CommitError>(CommitError::AlreadyCommitted)
                && final(self).model() == old(self).model(),
            c matches AccountCommitment::Full { address, balance, nonce, code } ==> (r is Ok
                ==> {
                &&& balance_of(final(self).model(), address.value()) == Some(balance.value())
                &&& nonce_of(final(self).model(), address.value()) == Some(nonce.value())
                &&& code_of(final(self).model(), address.value()) == Some(code@)
                &&& exists_of(final(self).model(), address.value()) == Some(true)
                &&& forall|k: nat|
                    #[trigger] storage_of(final(self).model(), address.value(), k) == storage_of(
                        old(self).model(),
                        address.value(),
                        k,
                    )
                &&& others_unchanged(old(self).model(), final(self).model(), address.value())
            }),
            c matches AccountCommitment::Code { address, code } ==> (r is Ok ==> {
                &&& code_of(final(self).model(), address.value()) == Some(code@)
                &&& exists_of(final(self).model(), address.value()) == Some(true)
                &&& balance_of(final(self).model(), address.value()) == balance_of(
                    old(self).model(),
                    address.value(),
                )
                &&& nonce_of(final(self).model(), address.value()) == nonce_of(
                    old(self).model(),
                    address.value(),
                )
                &&& forall|k: nat|
                    #[trigger] storage_of(final(self).model(), address.value(), k) == storage_of(
                        old(self).model(),
                        address.value(),
                        k,
                    )
                &&& others_unchanged(old(self).model(), final(self).model(), address.value())
            }),
            c matches AccountCommitment::Storage { address, index, value } ==> (r is Ok ==> {
                &&& storage_of(final(self).model(), address.value(), index.value()) == Some(
                    value.value(),
                )
                &&& forall|k: nat|
                    k != index.value() ==> #[trigger] storage_of(
                        final(self).model(),
                        address.value(),
                        k,
                    ) == storage_of(old(self).model(), address.value(), k)
                &&& balance_of(final(self).model(), address.value()) == balance_of(
                    old(self).model(),
                    address.value(),
                )
                &&& nonce_of(final(self).model(), address.value()) == nonce_of(
                    old(self).model(),
                    address.value(),
                )
                &&& code_of(final(self).model(), address.value()) == code_of(
                    old(self).model(),
                    address.value(),
                )
                &&& exists_of(final(self).model(), address.value()) == exists_of(
                    old(self).model(),
                    address.value(),
                )
                &&& others_unchanged(old(self).model(), final(self).model(), address.value())
            }),
            c matches AccountCommitment::Nonexist(address) ==> (r is Ok ==> {
                &&& balance_of(final(self).model(), address.value()) == Some(0nat)
                &&& nonce_of(final(self).model(), address.value()) == Some(0nat)
                &&& code_of(final(self).model(), address.value()) == Some(Seq::<u8>::empty())
                &&& exists_of(final(self).model(), address.value()) == Some(false)
                &&& forall|k: nat|
                    #[trigger] storage_of(final(self).model(), address.value(), k) == Some(0nat)
                &&& others_unchanged(old(self).model(), final(self).model(), address.value())
            }),
    {
        let addr: Address = match &c {
            AccountCommitment::Full { address, .. } => *address,
            AccountCommitment::Code { address, .. } => *address,
            AccountCommitment::Storage { address, .. } => *address,
            AccountCommitment::Nonexist(address) => *address,
        };
        let ghost m1 = self.model();
        let found = self.find(&addr);
        match found {
            None => {
                let rec: AccountRecord = match c {
                    AccountCommitment::Full { address, balance, nonce, code } => AccountRecord {
                        address,
                        basic: Some((balance, nonce)),
                        code: Some(code),
                        existence: Some(true),
                        storage_committed: Vec::new(),
                        storage_current: Vec::new(),
                    },
                    AccountCommitment::Code { address, code } => AccountRecord {
                        address,
                        basic: None,
                        code: Some(code),
                        existence: Some(true),
                        storage_committed: Vec::new(),
                        storage_current: Vec::new(),
                    },
                    AccountCommitment::Storage { address, index, value } => {
                        let mut sc: Vec<(Word, Word)> = Vec::new();
                        sc.push((index, value));
                        let mut cur: Vec<(Word, Word)> = Vec::new();
                        cur.push((index, value));
                        AccountRecord {
                            address,
                            basic: None,
                            code: None,
                            existence: None,
                            storage_committed: sc,
                            storage_current: cur,
                        }
                    },
                    AccountCommitment::Nonexist(address) => AccountRecord {
                        address,
                        basic: Some((Word::zero(), Word::zero())),
                        code: Some(Vec::new()),
                        existence: Some(false),
                        storage_committed: Vec::new(),
                        storage_current: Vec::new(),
                    },
                };
                self.records.push(rec);
                proof {
                    assert(self.model() =~= m1.push(rec.model()));
                    assert(rec.model().address == addr.value());
                    lemma_lookup_push(m1, rec.model());
                    lemma_views_others(m1, self.model(), addr.value());
                    assert(acct_of(self.model(), addr.value()) == rec.model());
                    if rec.storage_current@.len() > 0 {
                        assert(slots_model(rec.storage_current@).len() == 1);
                        assert(slots_unique(slots_model(rec.storage_current@)));
                        lemma_slot_at(slots_model(rec.storage_current@), 0);
                    }
                    assert forall|k: nat|
                        rec.storage_current@.len() == 0 implies !slot_has(
                            #[trigger] slots_model(rec.storage_current@),
                            k,
                        ) by {
                        if rec.storage_current@.len() == 0 && slot_has(
                            slots_model(rec.storage_current@),
                            k,
                        ) {
                            let j = choose|j: int|
                                0 <= j < slots_model(rec.storage_current@).len() && slots_model(
                                    rec.storage_current@,
                                )[j].0 == k;
                            assert(false);
                        }
                    }
                    assert forall|k: nat|
                        rec.storage_current@.len() == 1 && k != slots_model(
                            rec.storage_current@,
                        )[0].0 implies !slot_has(
                            #[trigger] slots_model(rec.storage_current@),
                            k,
                        ) by {
                        if rec.storage_current@.len() == 1 && k != slots_model(
                            rec.storage_current@,
                        )[0].0 && slot_has(slots_model(rec.storage_current@), k) {
                            let j = choose|j: int|
                                0 <= j < slots_model(rec.storage_current@).len() && slots_model(
                                    rec.storage_current@,
                                )[j].0 == k;
                            assert(false);
                        }
                    }
                    assert forall|k: nat|
                        #[trigger] storage_of(self.model(), addr.value(), k) == (
                        if slot_has(rec.model().storage_current, k) {
                            Some(slot_val(rec.model().storage_current, k))
                        } else if rec.model().existence == Some(false) {
                            Some(0nat)
                        } else {
                            None
                        }) by {
                        assert(acct_has(self.model(), addr.value()));
                        assert(acct_of(self.model(), addr.value()) == rec.model());
                    }
                    assert forall|k: nat|
                        #[trigger] storage_of(m1, addr.value(), k) == None::<nat> by {
                        assert(!acct_has(m1, addr.value()));
                    }
                    assert(self.wf()) by {
                        assert forall|ii: int| 0 <= ii < self.model().len() implies {
                            &&& slots_unique(#[trigger] self.model()[ii].storage_committed)
                            &&& slots_unique(self.model()[ii].storage_current)
                            &&& forall|k: nat|
                                #[trigger] slot_has(self.model()[ii].storage_current, k)
                                    ==> slot_has(self.model()[ii].storage_committed, k)
                                    || self.model()[ii].existence == Some(false)
                            &&& (self.model()[ii].existence == Some(false)
                                ==> self.model()[ii].basic is Some
                                && self.model()[ii].code is Some)
                        } by {
                            if ii < m1.len() {
                                assert(self.model()[ii] == m1[ii]);
                                assert(slots_unique(old(self).model()[ii].storage_committed));
                            } else {
                                assert(self.model()[ii] == rec.model());
                                assert forall|k: nat|
                                    #[trigger] slot_has(rec.model().storage_current, k) implies
                                    slot_has(rec.model().storage_committed, k)
                                    || rec.model().existence == Some(false) by {
                                    let j = choose|j: int|
                                        0 <= j < rec.model().storage_current.len()
                                            && rec.model().storage_current[j].0 == k;
                                    assert(j == 0);
                                    assert(rec.model().storage_committed[0].0 == k);
                                    assert(slot_has(rec.model().storage_committed, k));
                                }
                            }
                        }
                    }
                }
                Ok(())
            },
            Some(i) => {
                proof {
                    assert(m1[i as int].address == addr.value());
                    lemma_acct_at(m1, i as int);
                }
                match c {
                    AccountCommitment::Full { address, balance, nonce, code } => {
                        if self.records[i].basic.is_some() || self.records[i].code.is_some() {
                            return Err(CommitError::AlreadyCommitted);
                        }
                        let rec_ref = &self.records[i];
                        let updated = AccountRecord {
                            address: rec_ref.address,
                            basic: Some((balance, nonce)),
                            code: Some(code),
                            existence: Some(true),
                            storage_committed: copy_word_pairs(&rec_ref.storage_committed),
                            storage_current: copy_word_pairs(&rec_ref.storage_current),
                        };
                        let ghost um = updated.model();
                        self.records.set(i, updated);
                        proof {
                            assert(self.model() =~= m1.update(i as int, um));
                            lemma_lookup_update(m1, i as int, um);
                            lemma_views_others(m1, self.model(), addr.value());
                            assert(acct_of(self.model(), addr.value()) == um);
                            let oldrec = m1[i as int];
                            assert(um.storage_current == oldrec.storage_current);
                            assert(um.storage_committed == oldrec.storage_committed);
                            assert(oldrec.existence != Some(false));
                            assert forall|k: nat|
                                #[trigger] storage_of(self.model(), addr.value(), k) == storage_of(
                                m1,
                                addr.value(),
                                k,
                            ) by {
                                assert(acct_of(m1, addr.value()) == oldrec);
                            }
                            assert(self.wf()) by {
                                assert forall|ii: int| 0 <= ii < self.model().len() implies {
                                    &&& slots_unique(#[trigger] self.model()[ii].storage_committed)
                                    &&& slots_unique(self.model()[ii].storage_current)
                                    &&& forall|k: nat|
                                        #[trigger] slot_has(self.model()[ii].storage_current, k)
                                            ==> slot_has(self.model()[ii].storage_committed, k)
                                            || self.model()[ii].existence == Some(false)
                                    &&& (self.model()[ii].existence == Some(false)
                                        ==> self.model()[ii].basic is Some
                                        && self.model()[ii].code is Some)
                                } by {
                                    assert(slots_unique(old(self).model()[ii].storage_committed));
                                    if ii != i as int {
                                        assert(self.model()[ii] == m1[ii]);
                                    } else {
                                        assert(self.model()[ii] == um);
                                        assert forall|k: nat|
                                            #[trigger] slot_has(um.storage_current, k) implies
                                            slot_has(um.storage_committed, k) || um.existence
                                            == Some(false) by {
                                            if slot_has(oldrec.storage_current, k) {
                                                assert(slot_has(oldrec.storage_committed, k)
                                                    || oldrec.existence == Some(false));
                                            }
                                        }
                                    }
                                }
                            }
                        }
                        Ok(())
                    },
                    AccountCommitment::Code { address, code } => {
                        if self.records[i].code.is_some() {
                            return Err(CommitError::AlreadyCommitted);
                        }
                        let rec_ref = &self.records[i];
                        let updated = AccountRecord {
                            address: rec_ref.address,
                            basic: rec_ref.basic,
                            code: Some(code),
                            existence: Some(true),
                            storage_committed: copy_word_pairs(&rec_ref.storage_committed),
                            storage_current: copy_word_pairs(&rec_ref.storage_current),
                        };
                        let ghost um = updated.model();
                        self.records.set(i, updated);
                        proof {
                            assert(self.model() =~= m1.update(i as int, um));
                            lemma_lookup_update(m1, i as int, um);
                            lemma_views_others(m1, self.model(), addr.value());
                            assert(acct_of(self.model(), addr.value()) == um);
                            let oldrec = m1[i as int];
                            assert(um.storage_current == oldrec.storage_current);
                            assert(um.storage_committed == oldrec.storage_committed);
                            assert(oldrec.existence != Some(false));
                            assert forall|k: nat|
                                #[trigger] storage_of(self.model(), addr.value(), k) == storage_of(
                                m1,
                                addr.value(),
                                k,
                            ) by {
                                assert(acct_of(m1, addr.value()) == oldrec);
                            }
                            assert(self.wf()) by {
                                assert forall|ii: int| 0 <= ii < self.model().len() implies {
                                    &&& slots_unique(#[trigger] self.model()[ii].storage_committed)
                                    &&& slots_unique(self.model()[ii].storage_current)
                                    &&& forall|k: nat|
                                        #[trigger] slot_has(self.model()[ii].storage_current, k)
                                            ==> slot_has(self.model()[ii].storage_committed, k)
                                            || self.model()[ii].existence == Some(false)
                                    &&& (self.model()[ii].existence == Some(false)
                                        ==> self.model()[ii].basic is Some
                                        && self.model()[ii].code is Some)
                                } by {
                                    assert(slots_unique(old(self).model()[ii].storage_committed));
                                    if ii != i as int {
                                        assert(self.model()[ii] == m1[ii]);
                                    } else {
                                        assert(self.model()[ii] == um);
                                        assert forall|k: nat|
                                            #[trigger] slot_has(um.storage_current, k) implies
                                            slot_has(um.storage_committed, k) || um.existence
                                            == Some(false) by {
                                            if slot_has(oldrec.storage_current, k) {
                                                assert(slot_has(oldrec.storage_committed, k)
                                                    || oldrec.existence == Some(false));
                                            }
                                        }
                                    }
                                }
                            }
                        }
                        Ok(())
                    },
                    AccountCommitment::Storage { address, index, value } => {
                        let committed_already = match find_slot(
                            &self.records[i].storage_committed,
                            &index,
                        ) {
                            Some(_) => true,
                            None => false,
                        };
                        let known_nonexist = match self.records[i].existence {
                            Some(false) => true,
                            _ => false,
                        };
                        if committed_already || known_nonexist {
                            return Err(CommitError::AlreadyCommitted);
                        }
                        let rec_ref = &self.records[i];
                        let mut sc = copy_word_pairs(&rec_ref.storage_committed);
                        let mut cur = copy_word_pairs(&rec_ref.storage_current);
                        sc.push((index, value));
                        cur.push((index, value));
                        let code2: Option<Vec<u8>> = match &rec_ref.code {
                            Some(cv) => Some(copy_bytes(cv)),
                            None => None,
                        };
                        let updated = AccountRecord {
                            address: rec_ref.address,
                            basic: rec_ref.basic,
                            code: code2,
                            existence: rec_ref.existence,
                            storage_committed: sc,
                            storage_current: cur,
                        };
                        let ghost um = updated.model();
                        self.records.set(i, updated);
                        proof {
                            let kv = index.value();
                            let vv = value.value();
                            let oldrec = m1[i as int];
                            assert(m1 == old(self).model());
                            assert(slots_unique(old(self).model()[i as int].storage_committed));
                            assert(slots_unique(oldrec.storage_committed));
                            assert(slots_unique(oldrec.storage_current));
                            assert(um.storage_committed =~= oldrec.storage_committed.push(
                                (kv, vv),
                            ));
                            assert(um.storage_current =~= oldrec.storage_current.push((kv, vv)));
                            assert(!slot_has(oldrec.storage_current, kv));
                            lemma_slot_push(oldrec.storage_committed, kv, vv);
                            lemma_slot_push(oldrec.storage_current, kv, vv);
                            assert(self.model() =~= m1.update(i as int, um));
                            lemma_lookup_update(m1, i as int, um);
                            lemma_views_others(m1, self.model(), addr.value());
                            assert(acct_of(self.model(), addr.value()) == um);
                            assert(acct_of(m1, addr.value()) == oldrec);
                            assert(oldrec.existence != Some(false));
                            assert(um.existence == oldrec.existence);
                            assert forall|k: nat|
                                k != kv implies #[trigger] storage_of(self.model(), addr.value(), k)
                                == storage_of(m1, addr.value(), k) by {
                                assert(slot_has(um.storage_current, k) == slot_has(
                                    oldrec.storage_current,
                                    k,
                                ));
                                if slot_has(oldrec.storage_current, k) {
                                    assert(slot_val(um.storage_current, k) == slot_val(
                                        oldrec.storage_current,
                                        k,
                                    ));
                                }
                            }
                            assert(self.wf()) by {
                                assert forall|ii: int| 0 <= ii < self.model().len() implies {
                                    &&& slots_unique(#[trigger] self.model()[ii].storage_committed)
                                    &&& slots_unique(self.model()[ii].storage_current)
                                    &&& forall|k: nat|
                                        #[trigger] slot_has(self.model()[ii].storage_current, k)
                                            ==> slot_has(self.model()[ii].storage_committed, k)
                                            || self.model()[ii].existence == Some(false)
                                    &&& (self.model()[ii].existence == Some(false)
                                        ==> self.model()[ii].basic is Some
                                        && self.model()[ii].code is Some)
                                } by {
                                    assert(slots_unique(old(self).model()[ii].storage_committed));
                                    if ii != i as int {
                                        assert(self.model()[ii] == m1[ii]);
                                    } else {
                                        assert(self.model()[ii] == um);
                                        assert forall|k: nat|
                                            #[trigger] slot_has(um.storage_current, k) implies
                                            slot_has(um.storage_committed, k) || um.existence
                                            == Some(false) by {
                                            if slot_has(oldrec.storage_current, k) {
                                                assert(slot_has(oldrec.storage_committed, k)
                                                    || oldrec.existence == Some(false));
                                            }
                                        }
                                    }
                                }
                            }
                        }
                        Ok(())
                    },
                    AccountCommitment::Nonexist(address) => {
                        let conflict = self.records[i].basic.is_some()
                            || self.records[i].code.is_some()
                            || self.records[i].existence.is_some()
                            || self.records[i].storage_committed.len() > 0;
                        if conflict {
                            return Err(CommitError::AlreadyCommitted);
                        }
                        proof {
                            let oldrec = m1[i as int];
                            assert forall|k: nat|
                                !slot_has(#[trigger] oldrec.storage_current, k) by {
                                if slot_has(oldrec.storage_current, k) {
                                    assert(slot_has(oldrec.storage_committed, k) || oldrec.existence
                                        == Some(false));
                                    let j = choose|j: int|
                                        0 <= j < oldrec.storage_committed.len()
                                            && oldrec.storage_committed[j].0 == k;
                                    assert(false);
                                }
                            }
                        }
                        let updated = AccountRecord {
                            address: self.records[i].address,
                            basic: Some((Word::zero(), Word::zero())),
                            code: Some(Vec::new()),
                            existence: Some(false),
                            storage_committed: Vec::new(),
                            storage_current: Vec::new(),
                        };
                        let ghost um = updated.model();
                        self.records.set(i, updated);
                        proof {
                            assert(self.model() =~= m1.update(i as int, um));
                            lemma_lookup_update(m1, i as int, um);
                            lemma_views_others(m1, self.model(), addr.value());
                            assert(acct_of(self.model(), addr.value()) == um);
                            assert forall|k: nat|
                                !slot_has(#[trigger] um.storage_current, k) by {
                                if slot_has(um.storage_current, k) {
                                    let j = choose|j: int|
                                        0 <= j < um.storage_current.len()
                                            && um.storage_current[j].0 == k;
                                    assert(false);
                                }
                            }
                            let oldrec = m1[i as int];
                            assert(self.wf()) by {
                                assert forall|ii: int| 0 <= ii < self.model().len() implies {
                                    &&& slots_unique(
                                        #[trigger] self.model()[ii].storage_committed,
                                    )
                                    &&& slots_unique(self.model()[ii].storage_current)
                                    &&& forall|k: nat|
                                        #[trigger] slot_has(self.model()[ii].storage_current, k)
                                            ==> slot_has(self.model()[ii].storage_committed, k)
                                            || self.model()[ii].existence == Some(false)
                                    &&& (self.model()[ii].existence == Some(false)
                                        ==> self.model()[ii].basic is Some
                                        && self.model()[ii].code is Some)
                                } by {
                                    assert(slots_unique(old(self).model()[ii].storage_committed));
                                    if ii != i as int {
                                        assert(self.model()[ii] == m1[ii]);
                                    } else {
                                        assert(self.model()[ii] == um);
                                    }
                                }
                            }
                        }
                        Ok(())
                    },
                }
            },
        }
    }

    /// The committed balance of the account, or a requirement naming the
    /// missing account. An account known not to exist has balance zero.
    pub fn balance(&self, a: &Address) -> (r: Result<Word, RequireError>)
        requires
            self.wf(),
        ensures
            balance_of(self.model(), a.value()) matches Some(v) ==> (r matches Ok(w) && w.value()
                == v),
            balance_of(self.model(), a.value()) is None ==> r == Err::<Word, RequireError>(
                RequireError::Account(*a),
            ),
    {
        match self.find(a) {
            Some(i) => {
                proof {
                    lemma_acct_at(self.model(), i as int);
                }
                match self.records[i].basic {
                    Some(p) => Ok(p.0),
                    None => Err(RequireError::Account(*a)),
                }
            },
            None => Err(RequireError::Account(*a)),
        }
    }

    /// The committed code of the account, or a requirement naming the
    /// missing code.
    pub fn code(&self, a: &Address) -> (r: Result<Vec<u8>, RequireError>)
        requires
            self.wf(),
        ensures
            code_of(self.model(), a.value()) matches Some(c) ==> (r matches Ok(v) && v@ == c),
            code_of(self.model(), a.value()) is None ==> r == Err::<Vec<u8>, RequireError>(
                RequireError::AccountCode(*a),
            ),
    {
        match self.find(a) {
            Some(i) => {
                proof {
                    lemma_acct_at(self.model(), i as int);
                }
                match &self.records[i].code {
                    Some(c) => Ok(copy_bytes(c)),
                    None => Err(RequireError::AccountCode(*a)),
                }
            },
            None => Err(RequireError::AccountCode(*a)),
        }
    }

    /// Whether the account exists, or a requirement naming the missing
    /// account.
    pub fn existence(&self, a: &Address) -> (r: Result<bool, RequireError>)
        requires
            self.wf(),
        ensures
            exists_of(self.model(), a.value()) matches Some(b) ==> r == Ok::<bool, RequireError>(
                b,
            ),
            exists_of(self.model(), a.value()) is None ==> r == Err::<bool, RequireError>(
                RequireError::Account(*a),
            ),
    {
        match self.find(a) {
            Some(i) => {
                proof {
                    lemma_acct_at(self.model(), i as int);
                }
                match self.records[i].existence {
                    Some(b) => Ok(b),
                    None => Err(RequireError::Account(*a)),
                }
            },
            None => Err(RequireError::Account(*a)),
        }
    }

    /// The current value of a storage slot, or a requirement naming the
    /// missing slot. Every slot of an account known not to exist is zero.
    pub fn storage_read(&self, a: &Address, index: &Word) -> (r: Result<Word, RequireError>)
        requires
            self.wf(),
        ensures
            storage_of(self.model(), a.value(), index.value()) matches Some(v) ==> (r matches Ok(w)
                && w.value() == v),
            storage_of(self.model(), a.value(), index.value()) is None ==> r == Err::<
                Word,
                RequireError,
            >(RequireError::AccountStorage(*a, *index)),
    {
        match self.find(a) {
            Some(i) => {
                proof {
                    lemma_acct_at(self.model(), i as int);
                }
                match find_slot(&self.records[i].storage_current, index) {
                    Some(j) => {
                        proof {
                            assert(0 <= i < self.model().len());
                            assert(slots_unique(self.model()[i as int].storage_committed));
                            assert(slots_unique(
                                slots_model(self.records_spec()[i as int].storage_current@),
                            ));
                            lemma_slot_at(
                                slots_model(self.records_spec()[i as int].storage_current@),
                                j as int,
                            );
                        }
                        Ok(self.records[i].storage_current[j].1)
                    },
                    None => {
                        let known_nonexist = match self.records[i].existence {
                            Some(false) => true,
                            _ => false,
                        };
                        if known_nonexist {
                            Ok(Word::zero())
                        } else {
                            Err(RequireError::AccountStorage(*a, *index))
                        }
                    },
                }
            },
            None => Err(RequireError::AccountStorage(*a, *index)),
        }
    }

    /// Write a storage slot. The slot must be readable first: its current
    /// value must be committed, or the account known not to exist;
    /// otherwise the write fails with the same requirement as a read,
    /// leaving the cache unchanged.
    pub fn storage_write(&mut self, a: &Address, index: &Word, value: Word) -> (r: Result<
        (),
        RequireError,
    >)
        requires
            old(self).wf(),
        ensures
            final(self).wf(),
            r is Ok <==> storage_of(old(self).model(), a.value(), index.value()) is Some,
            r is Err ==> r == Err::<(), RequireError>(
                RequireError::AccountStorage(*a, *index),
            ) && final(self).model() == old(self).model(),
            r is Ok ==> {
                &&& storage_of(final(self).model(), a.value(), index.value()) == Some(
                    value.value(),
                )
                &&& forall|k: nat|
                    k != index.value() ==> #[trigger] storage_of(
                        final(self).model(),
                        a.value(),
                        k,
                    ) == storage_of(old(self).model(), a.value(), k)
                &&& balance_of(final(self).model(), a.value()) == balance_of(
                    old(self).model(),
                    a.value(),
                )
                &&& nonce_of(final(self).model(), a.value()) == nonce_of(
                    old(self).model(),
                    a.value(),
                )
                &&& code_of(final(self).model(), a.value()) == code_of(
                    old(self).model(),
                    a.value(),
                )
                &&& exists_of(final(self).model(), a.value()) == exists_of(
                    old(self).model(),
                    a.value(),
                )
                &&& acct_of(final(self).model(), a.value()).storage_committed == acct_of(
                    old(self).model(),
                    a.value(),
                ).storage_committed
                &&& others_unchanged(old(self).model(), final(self).model(), a.value())
            },
    {
        let ghost m1 = self.model();
        match self.find(a) {
            Some(i) => {
                proof {
                    lemma_acct_at(m1, i as int);
                }
                let slot = find_slot(&self.records[i].storage_current, index);
                let known_nonexist = match self.records[i].existence {
                    Some(false) => true,
                    _ => false,
                };
                match slot {
                    Some(j) => {
                        let rec_ref = &self.records[i];
                        let mut cur = copy_word_pairs(&rec_ref.storage_current);
                        cur.set(j, (*index, value));
                        let code2: Option<Vec<u8>> = match &rec_ref.code {
                            Some(cv) => Some(copy_bytes(cv)),
                            None => None,
                        };
                        let updated = AccountRecord {
                            address: rec_ref.address,
                            basic: rec_ref.basic,
                            code: code2,
                            existence: rec_ref.existence,
                            storage_committed: copy_word_pairs(&rec_ref.storage_committed),
                            storage_current: cur,
                        };
                        let ghost um = updated.model();
                        self.records.set(i, updated);
                        proof {
                            let kv = index.value();
                            let vv = value.value();
                            let oldrec = m1[i as int];
                            assert(m1 == old(self).model());
                            assert(slots_unique(old(self).model()[i as int].storage_committed));
                            assert(slots_unique(oldrec.storage_current));
                            assert(um.storage_current =~= oldrec.storage_current.update(
                                j as int,
                                (kv, vv),
                            ));
                            lemma_slot_update(oldrec.storage_current, j as int, kv, vv);
                            assert(self.model() =~= m1.update(i as int, um));
                            lemma_lookup_update(m1, i as int, um);
                            lemma_views_others(m1, self.model(), a.value());
                            assert(acct_of(self.model(), a.value()) == um);
                            assert(um.storage_committed == oldrec.storage_committed);
                        }
                        Ok(())
                    },
                    None => {
                        if known_nonexist {
                            let rec_ref = &self.records[i];
                            let mut cur = copy_word_pairs(&rec_ref.storage_current);
                            cur.push((*index, value));
                            let code2: Option<Vec<u8>> = match &rec_ref.code {
                                Some(cv) => Some(copy_bytes(cv)),
                                None => None,
                            };
                            let updated = AccountRecord {
                                address: rec_ref.address,
                                basic: rec_ref.basic,
                                code: code2,
                                existence: rec_ref.existence,
                                storage_committed: copy_word_pairs(&rec_ref.storage_committed),
                                storage_current: cur,
                            };
                            let ghost um = updated.model();
                            self.records.set(i, updated);
                            proof {
                                let kv = index.value();
                                let vv = value.value();
                                let oldrec = m1[i as int];
                                assert(m1 == old(self).model());
                                assert(slots_unique(old(self).model()[i as int].storage_committed));
                                assert(slots_unique(oldrec.storage_current));
                                assert(um.storage_current =~= oldrec.storage_current.push(
                                    (kv, vv),
                                ));
                                lemma_slot_push(oldrec.storage_current, kv, vv);
                                assert(self.model() =~= m1.update(i as int, um));
                                lemma_lookup_update(m1, i as int, um);
                                lemma_views_others(m1, self.model(), a.value());
                                assert(acct_of(self.model(), a.value()) == um);
                                assert(um.storage_committed == oldrec.storage_committed);
                            }
                            Ok(())
                        } else {
                            Err(RequireError::AccountStorage(*a, *index))
                        }
                    },
                }
            },
            None => Err(RequireError::AccountStorage(*a, *index)),
        }
    }

    /// A value-identical copy.
    pub fn duplicate(&self) -> (r: AccountState)
        ensures
            r.model() == self.model(),
    {
        let mut records: Vec<AccountRecord> = Vec::new();
        let mut i: usize = 0;
        while i < self.records.len()
            invariant
                0 <= i <= self.records_spec().len(),
                records@.len() == i,
                forall|j: int|
                    0 <= j < i ==> (#[trigger] records@[j]).model()
                        == self.records_spec()[j].model(),
            decreases self.records_spec().len() - i,
        {
            let copy = copy_record(&self.records[i]);
            records.push(copy);
            i = i + 1;
        }
        let r = AccountState { records };
        proof {
            assert(r.model() =~= self.model());
        }
        r
    }
}

impl Default for AccountState {
    /// An empty cache: no facts committed.
    fn default() -> (r: AccountState)
        ensures
            r.wf(),
            r.model() =~= Seq::<AccountModel>::empty(),
    {
        AccountState::new()
    }
}


/// The block-hash commit cache: hashes of historical blocks, keyed by
/// block number, supplied from outside on demand.
pub struct BlockhashState {
    entries: Vec<(Word, Word)>,
}

impl BlockhashState {
    /// The model: committed pairs of block number and hash.
    pub open spec fn model(self) -> Seq<(nat, nat)> {
        slots_model(self.entries_spec())
    }

    /// The entries held.
    pub closed spec fn entries_spec(self) -> Seq<(Word, Word)> {
        self.entries@
    }

    /// Every block number occurs once.
    pub open spec fn wf(self) -> bool {
        slots_unique(self.model())
    }

    /// An empty cache: no hashes committed.
    pub fn new() -> (r: BlockhashState)
        ensures
            r.wf(),
            r.model() =~= Seq::<(nat, nat)>::empty(),
    {
        BlockhashState { entries: Vec::new() }
    }

    /// The committed hash of block `number`, or a requirement naming the
    /// missing block.
    #[verifier::loop_isolation(false)]
    pub fn get(&self, number: &Word) -> (r: Result<Word, RequireError>)
        requires
            self.wf(),
        ensures
            slot_has(self.model(), number.value()) ==> (r matches Ok(h) && h.value() == slot_val(
                self.model(),
                number.value(),
            )),
            !slot_has(self.model(), number.value()) ==> r == Err::<Word, RequireError>(
                RequireError::Blockhash(*number),
            ),
    {
        let mut i: usize = 0;
        while i < self.entries.len()
            invariant
                0 <= i <= self.entries_spec().len(),
                self.model().len() == self.entries_spec().len(),
                forall|j: int| 0 <= j < i ==> self.model()[j].0 != number.value(),
            decreases self.entries_spec().len() - i,
        {
            if self.entries[i].0.eq_word(number) {
                let h = self.entries[i].1;
                proof {
                    assert(self.model()[i as int].0 == number.value());
                    assert(slot_has(self.model(), number.value()));
                    let j = choose|j: int|
                        0 <= j < self.model().len() && self.model()[j].0 == number.value();
                    if j != i {
                        if j < i {
                            assert(self.model()[j].0 != self.model()[i as int].0);
                        } else {
                            assert(self.model()[i as int].0 != self.model()[j].0);
                        }
                        assert(false);
                    }
                }
                return Ok(h);
            }
            i = i + 1;
        }
        proof {
            if slot_has(self.model(), number.value()) {
                let j = choose|j: int|
                    0 <= j < self.model().len() && self.model()[j].0 == number.value();
                assert(false);
            }
        }
        Err(RequireError::Blockhash(*number))
    }

    /// Commit the hash of block `number`. Fails when a hash for that
    /// number was already committed, leaving the cache unchanged.
    #[verifier::loop_isolation(false)]
    pub fn commit(&mut self, number: Word, hash: Word) -> (r: Result<(), CommitError>)
        requires
            old(self).wf(),
        ensures
            final(self).wf(),
            r is Ok <==> !slot_has(old(self).model(), number.value()),
            r is Err ==> r == Err::<(), CommitError>(CommitError::AlreadyCommitted)
                && final(self).model() =~= old(self).model(),
            r is Ok ==> {
                &&& slot_has(final(self).model(), number.value())
                &&& slot_val(final(self).model(), number.value()) == hash.value()
                &&& forall|x: nat|
                    x != number.value() ==> #[trigger] slot_has(final(self).model(), x) == slot_has(
                        old(self).model(),
                        x,
                    ) && (slot_has(old(self).model(), x) ==> slot_val(final(self).model(), x)
                        == slot_val(old(self).model(), x))
            },
    {
        let mut i: usize = 0;
        while i < self.entries.len()
            invariant
                0 <= i <= self.entries_spec().len(),
                self.model().len() == self.entries_spec().len(),
                forall|j: int| 0 <= j < i ==> self.model()[j].0 != number.value(),
            decreases self.entries_spec().len() - i,
        {
            if self.entries[i].0.eq_word(&number) {
                proof {
                    assert(self.model()[i as int].0 == number.value());
                    assert(slot_has(self.model(), number.value()));
                }
                return Err(CommitError::AlreadyCommitted);
            }
            i = i + 1;
        }
        proof {
            if slot_has(self.model(), number.value()) {
                let j = choose|j: int|
                    0 <= j < self.model().len() && self.model()[j].0 == number.value();
                assert(false);
            }
        }
        let ghost m1 = self.model();
        self.entries.push((number, hash));
        proof {
            assert(self.model() =~= m1.push((number.value(), hash.value())));
            lemma_slot_push(m1, number.value(), hash.value());
        }
        Ok(())
    }

    /// A value-identical copy.
    pub fn duplicate(&self) -> (r: BlockhashState)
        ensures
            r.model() =~= self.model(),
            r.wf() == self.wf(),
    {
        let r = BlockhashState { entries: copy_word_pairs(&self.entries) };
        proof {
            assert(r.model() =~= self.model());
        }
        r
    }
}

} // verus!
