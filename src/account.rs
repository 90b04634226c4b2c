//! The account registry: records keyed by account name, each name at most
//! once, kept in ascending order of names.
use vstd::prelude::*;
use vstd::utf8::encode_utf8;

verus! {

/// What is stored for one account.
#[derive(Debug)]
pub struct Account {
    /// The base32 secret.
    pub key: String,
    /// Whether codes are time-based.
    pub totp: bool,
    /// The name of the hash function.
    pub hash_function: String,
    /// The counter of an event-based account.
    pub counter: Option<u64>,
}

/// Whether no two entries share a name.
pub open spec fn names_unique(e: Seq<(String, Account)>) -> bool {
    forall|i: int, j: int|
        0 <= i < e.len() && 0 <= j < e.len() && i != j ==> #[trigger] e[i].0@ != #[trigger] e[j].0@
}

/// Lexicographic order on byte strings: a proper prefix comes first.
pub open spec fn bytes_less(a: Seq<u8>, b: Seq<u8>) -> bool
    decreases a.len(),
{
    if b.len() == 0 {
        false
    } else if a.len() == 0 {
        true
    } else if a[0] != b[0] {
        a[0] < b[0]
    } else {
        bytes_less(a.drop_first(), b.drop_first())
    }
}

/// The order of names, which is that of `String`: their UTF-8 bytes compared
/// lexicographically.
pub open spec fn name_less(a: Seq<char>, b: Seq<char>) -> bool {
    bytes_less(encode_utf8(a), encode_utf8(b))
}

/// Whether the names of the entries strictly ascend.
pub open spec fn names_sorted(e: Seq<(String, Account)>) -> bool {
    forall|i: int, j: int|
        0 <= i < j < e.len() ==> name_less(#[trigger] e[i].0@, #[trigger] e[j].0@)
}

/// No byte string comes before itself.
proof fn lemma_bytes_less_irreflexive(a: Seq<u8>)
    ensures
        !bytes_less(a, a),
    decreases a.len(),
{
    if a.len() > 0 {
        lemma_bytes_less_irreflexive(a.drop_first());
    }
}

/// Of two different byte strings, one comes before the other.
proof fn lemma_bytes_less_total(a: Seq<u8>, b: Seq<u8>)
    requires
        a != b,
    ensures
        bytes_less(a, b) || bytes_less(b, a),
    decreases a.len(),
{
    if a.len() == 0 {
        assert(b.len() > 0) by {
            if b.len() == 0 {
                assert(a =~= b);
            }
        }
    } else if b.len() > 0 && a[0] == b[0] {
        if a.drop_first() == b.drop_first() {
            assert(a.drop_first().len() == a.len() - 1);
            assert(b.drop_first().len() == b.len() - 1);
            assert(a.len() == b.len());
            assert(a =~= b) by {
                assert forall|i: int| 0 <= i < a.len() implies a[i] == b[i] by {
                    if i > 0 {
                        assert(a[i] == a.drop_first()[i - 1]);
                        assert(b[i] == b.drop_first()[i - 1]);
                    }
                }
            }
        }
        lemma_bytes_less_total(a.drop_first(), b.drop_first());
    }
}

/// The order on byte strings is transitive.
proof fn lemma_bytes_less_transitive(a: Seq<u8>, b: Seq<u8>, c: Seq<u8>)
    requires
        bytes_less(a, b),
        bytes_less(b, c),
    ensures
        bytes_less(a, c),
    decreases a.len(),
{
    if a.len() > 0 && a[0] == b[0] && b[0] == c[0] {
        lemma_bytes_less_transitive(a.drop_first(), b.drop_first(), c.drop_first());
    }
}

/// Different names have different UTF-8 encodings.
proof fn lemma_encode_injective(a: Seq<char>, b: Seq<char>)
    requires
        a != b,
    ensures
        encode_utf8(a) != encode_utf8(b),
{
    vstd::utf8::encode_utf8_decode_utf8(a);
    vstd::utf8::encode_utf8_decode_utf8(b);
}

/// Strictly ascending names are unique.
proof fn lemma_sorted_unique(e: Seq<(String, Account)>)
    requires
        names_sorted(e),
    ensures
        names_unique(e),
{
    assert forall|i: int, j: int|
        0 <= i < e.len() && 0 <= j < e.len() && i != j implies #[trigger] e[i].0@ != #[trigger] e[j].0@ by {
        if e[i].0@ == e[j].0@ {
            lemma_bytes_less_irreflexive(encode_utf8(e[i].0@));
            if i < j {
                assert(name_less(e[i].0@, e[j].0@));
            } else {
                assert(name_less(e[j].0@, e[i].0@));
            }
        }
    }
}

/// Whether the name `a` comes before the name `b`.
pub fn name_precedes(a: &str, b: &str) -> (r: bool)
    ensures
        r == name_less(a@, b@),
{
    let x = a.as_bytes();
    let y = b.as_bytes();
    let mut i: usize = 0;
    assert(x@.skip(0) =~= x@);
    assert(y@.skip(0) =~= y@);
    while i < x.len() && i < y.len()
        invariant
            i <= x@.len(),
            i <= y@.len(),
            x@ == encode_utf8(a@),
            y@ == encode_utf8(b@),
            bytes_less(x@, y@) == bytes_less(x@.skip(i as int), y@.skip(i as int)),
            forall|j: int| 0 <= j < i ==> x@[j] == y@[j],
        decreases x@.len() - i,
    {
        assert(x@.skip(i as int)[0] == x@[i as int]);
        assert(y@.skip(i as int)[0] == y@[i as int]);
        if x[i] != y[i] {
            return x[i] < y[i];
        }
        assert(x@.skip(i as int).drop_first() =~= x@.skip(i + 1));
        assert(y@.skip(i as int).drop_first() =~= y@.skip(i + 1));
        i = i + 1;
    }
    assert(x@.skip(i as int).len() == x@.len() - i);
    assert(y@.skip(i as int).len() == y@.len() - i);
    i < y.len()
}

/// Whether an entry of `e` has the name `k`.
pub open spec fn has_name(e: Seq<(String, Account)>, k: Seq<char>) -> bool {
    exists|i: int| 0 <= i < e.len() && #[trigger] e[i].0@ == k
}

/// The map from names to accounts that a list of entries stands for.
pub open spec fn map_of_entries(e: Seq<(String, Account)>) -> Map<Seq<char>, Account> {
    Map::new(
        |k: Seq<char>| has_name(e, k),
        |k: Seq<char>| e[choose|i: int| 0 <= i < e.len() && #[trigger] e[i].0@ == k].1,
    )
}

/// The accounts, by name.
pub struct AccountStore {
    accounts: Vec<(String, Account)>,
}

impl View for AccountStore {
    type V = Map<Seq<char>, Account>;

    open spec fn view(&self) -> Map<Seq<char>, Account> {
        map_of_entries(self.entries())
    }
}

/// In a list with unique names, the map holds each entry under its name.
proof fn lemma_entry_in_map(e: Seq<(String, Account)>, i: int)
    requires
        names_unique(e),
        0 <= i < e.len(),
    ensures
        map_of_entries(e).contains_key(e[i].0@),
        map_of_entries(e)[e[i].0@] == e[i].1,
{
    let k = e[i].0@;
    assert(has_name(e, k));
    let j = choose|j: int| 0 <= j < e.len() && #[trigger] e[j].0@ == k;
    assert(j == i);
}

impl AccountStore {
    /// Each name appears once, and names ascend.
    pub closed spec fn wf(&self) -> bool {
        names_unique(self.accounts@) && names_sorted(self.accounts@)
    }

    /// The entries, in ascending order of names.
    pub closed spec fn entries(&self) -> Seq<(String, Account)> {
        self.accounts@
    }

    /// An empty registry.
    pub fn new() -> (r: AccountStore)
        ensures
            r.wf(),
            r@ == Map::<Seq<char>, Account>::empty(),
            r.entries().len() == 0,
    {
        let r = AccountStore { accounts: Vec::new() };
        assert(r@ =~= Map::<Seq<char>, Account>::empty());
        r
    }

    /// The position of the entry named `account_name`, if any.
    fn position(&self, account_name: &str) -> (r: Option<usize>)
        ensures
            match r {
                Some(i) => i < self.entries().len() && self.entries()[i as int].0@ == account_name@,
                None => !has_name(self.entries(), account_name@),
            },
    {
        let name = account_name.to_owned();
        let mut i: usize = 0;
        while i < self.accounts.len()
            invariant
                i <= self.accounts@.len(),
                name@ == account_name@,
                forall|j: int| 0 <= j < i ==> #[trigger] self.accounts@[j].0@ != name@,
            decreases self.accounts@.len() - i,
        {
            if self.accounts[i].0 == name {
                return Some(i);
            }
            i = i + 1;
        }
        None
    }

    /// The account named `account_name`, if there is one.
    pub fn get(&self, account_name: &str) -> (r: Option<&Account>)
        requires
            self.wf(),
        ensures
            r is Some <==> self@.contains_key(account_name@),
            r is Some ==> *r->Some_0 == self@[account_name@],
    {
        match self.position(account_name) {
            Some(i) => {
                proof {
                    lemma_entry_in_map(self.entries(), i as int);
                }
                Some(&self.accounts[i].1)
            },
            None => None,
        }
    }

    /// All entries, each name once, in ascending order of names; together they
    /// are the registry.
    pub fn list(&self) -> (r: &Vec<(String, Account)>)
        requires
            self.wf(),
        ensures
            r@ == self.entries(),
            names_unique(r@),
            names_sorted(r@),
            self@ == map_of_entries(r@),
    {
        &self.accounts
    }

    /// Where a name that is not in the registry goes: after every smaller name
    /// and before every larger one.
    fn insertion_point(&self, account_name: &str) -> (r: usize)
        requires
            self.wf(),
            !has_name(self.entries(), account_name@),
        ensures
            r <= self.entries().len(),
            forall|j: int| 0 <= j < r ==> name_less(#[trigger] self.entries()[j].0@, account_name@),
            forall|j: int|
                r <= j < self.entries().len() ==> name_less(
                    account_name@,
                    #[trigger] self.entries()[j].0@,
                ),
    {
        let mut i: usize = 0;
        while i < self.accounts.len() && name_precedes(self.accounts[i].0.as_str(), account_name)
            invariant
                i <= self.accounts@.len(),
                forall|j: int|
                    0 <= j < i ==> name_less(#[trigger] self.accounts@[j].0@, account_name@),
            decreases self.accounts@.len() - i,
        {
            i = i + 1;
        }
        proof {
            let e = self.accounts@;
            if i < e.len() {
                assert(e[i as int].0@ != account_name@);
                lemma_encode_injective(e[i as int].0@, account_name@);
                lemma_bytes_less_total(encode_utf8(e[i as int].0@), encode_utf8(account_name@));
                assert forall|j: int| i <= j < e.len() implies name_less(
                    account_name@,
                    #[trigger] e[j].0@,
                ) by {
                    if j > i {
                        assert(name_less(e[i as int].0@, e[j].0@));
                        lemma_bytes_less_transitive(
                            encode_utf8(account_name@),
                            encode_utf8(e[i as int].0@),
                            encode_utf8(e[j].0@),
                        );
                    }
                }
            }
        }
        i
    }

    /// Records `account` under `account_name`, replacing any account of that name.
    pub fn add(&mut self, account_name: String, account: Account)
        requires
            old(self).wf(),
        ensures
            final(self).wf(),
            final(self)@ == old(self)@.insert(account_name@, account),
    {
        let ghost old_e = self.accounts@;
        let ghost k = account_name@;
        match self.position(account_name.as_str()) {
            Some(i) => {
                self.accounts.set(i, (account_name, account));
                let ghost e = self.accounts@;
                assert(names_unique(e)) by {
                    assert forall|a: int, b: int|
                        0 <= a < e.len() && 0 <= b < e.len() && a != b implies #[trigger] e[a].0@
                        != #[trigger] e[b].0@ by {
                        assert(e[a].0@ == old_e[a].0@);
                        assert(e[b].0@ == old_e[b].0@);
                    }
                }
                assert(map_of_entries(e) =~= map_of_entries(old_e).insert(k, account)) by {
                    assert forall|n: Seq<char>| #[trigger]
                        map_of_entries(e).contains_key(n) == map_of_entries(old_e).insert(
                            k,
                            account,
                        ).contains_key(n) by {
                        if has_name(e, n) {
                            let j = choose|j: int| 0 <= j < e.len() && #[trigger] e[j].0@ == n;
                            assert(old_e[j].0@ == e[j].0@);
                        }
                        if has_name(old_e, n) {
                            let j = choose|j: int| 0 <= j < old_e.len() && #[trigger] old_e[j].0@ == n;
                            assert(old_e[j].0@ == e[j].0@);
                        }
                    }
                    assert forall|n: Seq<char>| #[trigger] map_of_entries(e).contains_key(n)
                        implies map_of_entries(e)[n] == map_of_entries(old_e).insert(k, account)[n] by {
                        let j = choose|j: int| 0 <= j < e.len() && #[trigger] e[j].0@ == n;
                        lemma_entry_in_map(e, j);
                        if n != k {
                            assert(j != i);
                            assert(old_e[j] == e[j]);
                            lemma_entry_in_map(old_e, j);
                        }
                    }
                }
            },
            None => {
                let p = self.insertion_point(account_name.as_str());
                self.accounts.insert(p, (account_name, account));
                let ghost e = self.accounts@;
                assert(e.len() == old_e.len() + 1);
                assert(forall|j: int| 0 <= j < p ==> e[j] == old_e[j]);
                assert(forall|j: int| p < j < e.len() ==> e[j] == old_e[j - 1]);
                assert(e[p as int].0@ == k);
                assert(names_sorted(e)) by {
                    assert forall|a: int, b: int| 0 <= a < b < e.len() implies name_less(
                        #[trigger] e[a].0@,
                        #[trigger] e[b].0@,
                    ) by {
                        if b < p {
                            assert(name_less(old_e[a].0@, old_e[b].0@));
                        } else if b == p {
                            assert(name_less(old_e[a].0@, k));
                        } else if a == p {
                            assert(name_less(k, old_e[b - 1].0@));
                        } else if a < p {
                            assert(name_less(old_e[a].0@, old_e[b - 1].0@));
                        } else {
                            assert(name_less(old_e[a - 1].0@, old_e[b - 1].0@));
                        }
                    }
                }
                proof {
                    lemma_sorted_unique(e);
                }
                assert(map_of_entries(e) =~= map_of_entries(old_e).insert(k, account)) by {
                    assert forall|n: Seq<char>| #[trigger]
                        map_of_entries(e).contains_key(n) == map_of_entries(old_e).insert(
                            k,
                            account,
                        ).contains_key(n) by {
                        if has_name(e, n) {
                            let j = choose|j: int| 0 <= j < e.len() && #[trigger] e[j].0@ == n;
                            if j < p {
                                assert(old_e[j] == e[j]);
                            } else if j > p {
                                assert(old_e[j - 1] == e[j]);
                            }
                        }
                        if has_name(old_e, n) {
                            let j = choose|j: int| 0 <= j < old_e.len() && #[trigger] old_e[j].0@ == n;
                            if j < p {
                                assert(old_e[j] == e[j]);
                            } else {
                                assert(old_e[j] == e[j + 1]);
                            }
                        }
                        if n == k {
                            assert(e[p as int].0@ == k);
                        }
                    }
                    assert forall|n: Seq<char>| #[trigger] map_of_entries(e).contains_key(n)
                        implies map_of_entries(e)[n] == map_of_entries(old_e).insert(k, account)[n] by {
                        let j = choose|j: int| 0 <= j < e.len() && #[trigger] e[j].0@ == n;
                        lemma_entry_in_map(e, j);
                        if n != k {
                            assert(j != p);
                            let oj = if j < p { j } else { j - 1 };
                            assert(old_e[oj] == e[j]);
                            lemma_entry_in_map(old_e, oj);
                        }
                    }
                }
            },
        }
    }

    /// Removes the account named `account_name` and returns it, if there is one.
    pub fn delete(&mut self, account_name: &str) -> (r: Option<Account>)
        requires
            old(self).wf(),
        ensures
            final(self).wf(),
            final(self)@ == old(self)@.remove(account_name@),
            r is Some <==> old(self)@.contains_key(account_name@),
            r is Some ==> r->Some_0 == old(self)@[account_name@],
    {
        let ghost old_e = self.accounts@;
        let ghost k = account_name@;
        match self.position(account_name) {
            Some(i) => {
                proof {
                    lemma_entry_in_map(old_e, i as int);
                }
                let removed = self.accounts.remove(i);
                let ghost e = self.accounts@;
                assert(forall|j: int| 0 <= j < i ==> e[j] == old_e[j]);
                assert(forall|j: int| i <= j < e.len() ==> e[j] == old_e[j + 1]);
                assert(names_unique(e)) by {
                    assert forall|a: int, b: int|
                        0 <= a < e.len() && 0 <= b < e.len() && a != b implies #[trigger] e[a].0@
                        != #[trigger] e[b].0@ by {
                        let oa = if a < i { a } else { a + 1 };
                        let ob = if b < i { b } else { b + 1 };
                        assert(e[a] == old_e[oa]);
                        assert(e[b] == old_e[ob]);
                    }
                }
                assert(map_of_entries(e) =~= map_of_entries(old_e).remove(k)) by {
                    assert forall|n: Seq<char>| #[trigger] map_of_entries(e).contains_key(n)
                        == map_of_entries(old_e).remove(k).contains_key(n) by {
                        if has_name(e, n) {
                            let j = choose|j: int| 0 <= j < e.len() && #[trigger] e[j].0@ == n;
                            let oj = if j < i { j } else { j + 1 };
                            assert(e[j] == old_e[oj]);
                            assert(oj != i);
                        }
                        if has_name(old_e, n) && n != k {
                            let j = choose|j: int| 0 <= j < old_e.len() && #[trigger] old_e[j].0@ == n;
                            assert(j != i);
                            let nj = if j < i { j } else { j - 1 };
                            assert(e[nj] == old_e[j]);
                        }
                    }
                    assert forall|n: Seq<char>| #[trigger] map_of_entries(e).contains_key(n)
                        implies map_of_entries(e)[n] == map_of_entries(old_e).remove(k)[n] by {
                        let j = choose|j: int| 0 <= j < e.len() && #[trigger] e[j].0@ == n;
                        lemma_entry_in_map(e, j);
                        let oj = if j < i { j } else { j + 1 };
                        assert(e[j] == old_e[oj]);
                        lemma_entry_in_map(old_e, oj);
                    }
                }
                Some(removed.1)
            },
            None => {
                assert(map_of_entries(old_e) =~= map_of_entries(old_e).remove(k));
                None
            },
        }
    }
}

} // verus!
