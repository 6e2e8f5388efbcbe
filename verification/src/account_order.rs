//! The order in which the accounts are listed.

use vstd::prelude::*;
use vstd::seq_lib::*;
use vstd::string::*;

use crate::account::{account_of, avatar_name, ids_of, listed_ids_name_accounts, names_account, read_account, update_changes_one_account, with_update, AccountFiles, AccountView, EntryView, FilesView, SteamAccount, UpdateView};
use crate::path::{FsPath, PathView};
use crate::text::{lowercase, text_le, text_not_after, text_order_is_antisymmetric, text_order_is_total, text_order_is_transitive};

verus! {

impl AccountView {
    /// The text by which an account is put in order: its name, or its number
    /// where it has no name, in lower case.
    pub open spec fn sort_key(self) -> Seq<char> {
        lowercase(
            if self.persona_name.len() == 0 {
                self.id
            } else {
                self.persona_name
            },
        )
    }
}

impl SteamAccount {
    /// The text by which the account is put in order.
    pub fn sort_key(&self) -> (r: String)
        ensures
            r@ == self@.sort_key(),
    {
        if self.persona_name.as_str().is_empty() {
            self.id.as_str().to_lowercase()
        } else {
            self.persona_name.as_str().to_lowercase()
        }
    }
}

/// Whether no account stands after one with a greater key.
pub open spec fn in_order(s: Seq<AccountView>) -> bool {
    forall|i: int, j: int|
        0 <= i <= j < s.len() ==> text_le(
            (#[trigger] s[i]).sort_key(),
            (#[trigger] s[j]).sort_key(),
        )
}

/// The accounts with the key, in their order.
pub open spec fn with_key(s: Seq<AccountView>, key: Seq<char>) -> Seq<AccountView> {
    s.filter(|a: AccountView| a.sort_key() == key)
}

/// Whether `to` holds the accounts of `from` in the order of their keys, and
/// accounts with the same key in the order that they have in `from`.
pub open spec fn stably_sorted(from: Seq<AccountView>, to: Seq<AccountView>) -> bool {
    &&& in_order(to)
    &&& to.to_multiset() == from.to_multiset()
    &&& forall|key: Seq<char>| #[trigger] with_key(to, key) == with_key(from, key)
}

proof fn lemma_with_key_push(s: Seq<AccountView>, a: AccountView, key: Seq<char>)
    ensures
        with_key(s.push(a), key) == if a.sort_key() == key {
            with_key(s, key).push(a)
        } else {
            with_key(s, key)
        },
{
    reveal(Seq::filter);
    assert(s.push(a).drop_last() == s);
}

proof fn lemma_without_key(s: Seq<AccountView>, key: Seq<char>)
    requires
        forall|i: int| 0 <= i < s.len() ==> (#[trigger] s[i]).sort_key() != key,
    ensures
        with_key(s, key) == Seq::<AccountView>::empty(),
    decreases s.len(),
{
    reveal(Seq::filter);
    if s.len() > 0 {
        lemma_without_key(s.drop_last(), key);
    }
}

proof fn lemma_insert(from: Seq<AccountView>, to: Seq<AccountView>, a: AccountView, pos: int)
    requires
        stably_sorted(from, to),
        0 <= pos <= to.len(),
        forall|i: int|
            0 <= i < pos ==> text_le((#[trigger] to[i]).sort_key(), a.sort_key()),
        forall|i: int|
            pos <= i < to.len() ==> !text_le((#[trigger] to[i]).sort_key(), a.sort_key()),
    ensures
        stably_sorted(from.push(a), to.insert(pos, a)),
{
    let now = to.insert(pos, a);
    assert(in_order(now)) by {
        assert forall|i: int, j: int| 0 <= i <= j < now.len() implies text_le(
            (#[trigger] now[i]).sort_key(),
            (#[trigger] now[j]).sort_key(),
        ) by {
            text_order_is_total(a.sort_key(), a.sort_key());
            if j > pos {
                assert(now[j] == to[j - 1]);
                text_order_is_total(a.sort_key(), to[j - 1].sort_key());
            } else if j < pos {
                assert(now[j] == to[j]);
            }
            if i > pos {
                assert(now[i] == to[i - 1]);
            } else if i < pos {
                assert(now[i] == to[i]);
            }
        }
    }
    assert(now.to_multiset() == from.push(a).to_multiset()) by {
        broadcast use group_to_multiset_ensures;

        assert(now.remove(pos) == to);
        assert(now[pos] == a);
        assert(now.contains(a));
        assert(now.to_multiset() =~= to.to_multiset().insert(a));
    }
    assert forall|key: Seq<char>| #[trigger] with_key(now, key) == with_key(
        from.push(a),
        key,
    ) by {
        let head = to.take(pos);
        let tail = to.skip(pos);
        let pred = |x: AccountView| x.sort_key() == key;
        assert(to == head + tail);
        assert(now == head.push(a) + tail);
        Seq::filter_distributes_over_add(head, tail, pred);
        Seq::filter_distributes_over_add(head.push(a), tail, pred);
        lemma_with_key_push(head, a, key);
        lemma_with_key_push(from, a, key);
        assert(with_key(to, key) == with_key(from, key));
        if a.sort_key() == key {
            assert forall|i: int| 0 <= i < tail.len() implies (#[trigger] tail[i]).sort_key()
                != key by {
                assert(tail[i] == to[pos + i]);
                text_order_is_total(key, key);
            }
            lemma_without_key(tail, key);
            assert(with_key(now, key) == with_key(head, key).push(a));
            assert(with_key(to, key) == with_key(head, key));
        }
    }
}

/// Puts the accounts in order, keeping those with the same key in the order
/// that they had.
pub fn sort_accounts(accounts: Vec<SteamAccount>) -> (r: Vec<SteamAccount>)
    ensures
        stably_sorted(accounts.deep_view(), r.deep_view()),
{
    let mut r: Vec<SteamAccount> = Vec::new();
    let mut n: usize = 0;
    assert(r.deep_view() == Seq::<AccountView>::empty());
    assert(accounts.deep_view().take(0) == Seq::<AccountView>::empty());
    while n < accounts.len()
        invariant
            n <= accounts.len(),
            stably_sorted(accounts.deep_view().take(n as int), r.deep_view()),
        decreases accounts.len() - n,
    {
        let account: SteamAccount = accounts[n].copy();
        let key: String = account.sort_key();
        let mut pos: usize = r.len();
        while pos > 0 && !text_not_after(r[pos - 1].sort_key().as_str(), key.as_str())
            invariant
                pos <= r.len(),
                key@ == account@.sort_key(),
                forall|i: int|
                    pos <= i < r.len() ==> !text_le(
                        (#[trigger] r.deep_view()[i]).sort_key(),
                        key@,
                    ),
            decreases pos,
        {
            pos -= 1;
        }
        proof {
            let from = accounts.deep_view().take(n as int);
            let to = r.deep_view();
            assert forall|i: int| 0 <= i < pos implies text_le(
                (#[trigger] to[i]).sort_key(),
                account@.sort_key(),
            ) by {
                assert(text_le(to[pos - 1].sort_key(), account@.sort_key()));
                text_order_is_transitive(
                    to[i].sort_key(),
                    to[pos - 1].sort_key(),
                    account@.sort_key(),
                );
            }
            lemma_insert(from, to, account@, pos as int);
            assert(from.push(account@) == accounts.deep_view().take(n + 1));
        }
        let ghost before = r.deep_view();
        r.insert(pos, account);
        assert(r.deep_view() == before.insert(pos as int, account@));
        n += 1;
    }
    assert(accounts.deep_view().take(n as int) == accounts.deep_view());
    r
}

/// The accounts with these numbers, as their files describe them.
pub open spec fn accounts_of(
    ids: Seq<Seq<char>>,
    files: Seq<FilesView>,
    cache_dir: PathView,
) -> Seq<AccountView> {
    Seq::new(ids.len(), |i: int| account_of(ids[i], files[i], cache_dir))
}

/// The accounts with these numbers, each as its files describe it, in order.
pub fn get_accounts(ids: &Vec<String>, files: &Vec<AccountFiles>, cache_dir: &FsPath) -> (r: Vec<
    SteamAccount,
>)
    requires
        ids.len() == files.len(),
        forall|i: int|
            0 <= i < ids.len() ==> cache_dir@.joinable(avatar_name(#[trigger] ids.deep_view()[i])),
    ensures
        stably_sorted(accounts_of(ids.deep_view(), files.deep_view(), cache_dir@), r.deep_view()),
{
    let ghost all = accounts_of(ids.deep_view(), files.deep_view(), cache_dir@);
    let mut accounts: Vec<SteamAccount> = Vec::new();
    let mut i: usize = 0;
    while i < ids.len()
        invariant
            i <= ids.len(),
            ids.len() == files.len(),
            forall|k: int|
                0 <= k < ids.len() ==> cache_dir@.joinable(
                    avatar_name(#[trigger] ids.deep_view()[k]),
                ),
            all == accounts_of(ids.deep_view(), files.deep_view(), cache_dir@),
            accounts.deep_view() == all.take(i as int),
        decreases ids.len() - i,
    {
        let ghost before = accounts.deep_view();
        assert(ids.deep_view()[i as int] == ids[i as int]@);
        accounts.push(read_account(ids[i].as_str(), &files[i], cache_dir));
        assert(accounts.deep_view() == before.push(all[i as int]));
        i += 1;
    }
    assert(all.take(i as int) == all);
    sort_accounts(accounts)
}

proof fn lemma_key_last(s: Seq<AccountView>)
    requires
        s.len() > 0,
    ensures
        with_key(s, s.last().sort_key()).len() > 0,
        with_key(s, s.last().sort_key()).last() == s.last(),
{
    lemma_with_key_push(s.drop_last(), s.last(), s.last().sort_key());
    assert(s.drop_last().push(s.last()) == s);
}

proof fn lemma_key_at_most_last(s: Seq<AccountView>, key: Seq<char>)
    requires
        in_order(s),
        with_key(s, key).len() > 0,
    ensures
        s.len() > 0,
        text_le(key, s.last().sort_key()),
{
    if s.len() == 0 || !text_le(key, s.last().sort_key()) {
        assert forall|i: int| 0 <= i < s.len() implies (#[trigger] s[i]).sort_key() != key by {
            assert(text_le(s[i].sort_key(), s[s.len() - 1].sort_key()));
        }
        lemma_without_key(s, key);
    }
}

/// There is only one way to put accounts in order.
pub proof fn order_is_determined(
    from: Seq<AccountView>,
    one: Seq<AccountView>,
    other: Seq<AccountView>,
)
    requires
        stably_sorted(from, one),
        stably_sorted(from, other),
    ensures
        one == other,
{
    assert forall|key: Seq<char>| #[trigger] with_key(one, key) == with_key(other, key) by {
        assert(with_key(other, key) == with_key(from, key));
    }
    assert(one.len() == other.len()) by {
        broadcast use group_to_multiset_ensures;

        assert(one.to_multiset().len() == other.to_multiset().len());
    }
    lemma_same_order(one, other);
}

proof fn lemma_same_order(one: Seq<AccountView>, other: Seq<AccountView>)
    requires
        in_order(one),
        in_order(other),
        one.len() == other.len(),
        forall|key: Seq<char>| #[trigger] with_key(one, key) == with_key(other, key),
    ensures
        one == other,
    decreases one.len(),
{
    if one.len() > 0 {
        let a = one.last();
        let b = other.last();
        lemma_key_last(one);
        lemma_key_last(other);
        assert(with_key(one, a.sort_key()) == with_key(other, a.sort_key()));
        assert(with_key(one, b.sort_key()) == with_key(other, b.sort_key()));
        lemma_key_at_most_last(other, a.sort_key());
        lemma_key_at_most_last(one, b.sort_key());
        text_order_is_antisymmetric(a.sort_key(), b.sort_key());
        assert(a == b);
        let x = one.drop_last();
        let y = other.drop_last();
        assert(x.push(a) == one);
        assert(y.push(a) == other);
        assert forall|key: Seq<char>| #[trigger] with_key(x, key) == with_key(y, key) by {
            lemma_with_key_push(x, a, key);
            lemma_with_key_push(y, a, key);
            assert(with_key(one, key) == with_key(other, key));
            if a.sort_key() == key {
                assert(with_key(x, key) == with_key(one, key).drop_last());
                assert(with_key(y, key) == with_key(other, key).drop_last());
            }
        }
        assert forall|i: int, j: int| 0 <= i <= j < x.len() implies text_le(
            (#[trigger] x[i]).sort_key(),
            (#[trigger] x[j]).sort_key(),
        ) by {
            assert(x[i] == one[i] && x[j] == one[j]);
        }
        assert forall|i: int, j: int| 0 <= i <= j < y.len() implies text_le(
            (#[trigger] y[i]).sort_key(),
            (#[trigger] y[j]).sort_key(),
        ) by {
            assert(y[i] == other[i] && y[j] == other[j]);
        }
        lemma_same_order(x, y);
    } else {
        assert(one == other);
    }
}

/// Whether no two accounts have the same number.
pub open spec fn ids_differ(s: Seq<AccountView>) -> bool {
    forall|i: int, j: int|
        0 <= i < j < s.len() ==> (#[trigger] s[i]).id != (#[trigger] s[j]).id
}

/// Directories with different names are different accounts.
pub proof fn account_ids_differ(entries: Seq<EntryView>)
    requires
        forall|i: int, j: int|
            0 <= i < j < entries.len() ==> (#[trigger] entries[i]).name
                != (#[trigger] entries[j]).name,
    ensures
        ids_of(entries).no_duplicates(),
        forall|id: Seq<char>| #[trigger]
            ids_of(entries).contains(id) ==> exists|i: int|
                0 <= i < entries.len() && #[trigger] entries[i].name == id && entries[i].is_dir,
    decreases entries.len(),
{
    if entries.len() > 0 {
        let rest = entries.drop_last();
        let last = entries.last();
        assert forall|i: int, j: int| 0 <= i < j < rest.len() implies (#[trigger] rest[i]).name
            != (#[trigger] rest[j]).name by {
            assert(rest[i] == entries[i] && rest[j] == entries[j]);
        }
        account_ids_differ(rest);
        let before = ids_of(rest);
        let now = ids_of(entries);
        assert(!before.contains(last.name)) by {
            if before.contains(last.name) {
                let i = choose|i: int|
                    0 <= i < rest.len() && #[trigger] rest[i].name == last.name && rest[i].is_dir;
                assert(entries[i].name == entries[entries.len() - 1].name);
            }
        }
        assert forall|i: int, j: int| 0 <= i < now.len() && 0 <= j < now.len() && i != j implies
            now[i] != now[j] by {
            if now.len() > before.len() {
                if i == before.len() {
                    assert(before.contains(before[j]));
                } else if j == before.len() {
                    assert(before.contains(before[i]));
                }
            }
        }
        assert forall|id: Seq<char>| #[trigger] now.contains(id) implies exists|i: int|
            0 <= i < entries.len() && #[trigger] entries[i].name == id && entries[i].is_dir by {
            let k = choose|k: int| 0 <= k < now.len() && now[k] == id;
            if k < before.len() {
                assert(before[k] == id);
                assert(before.contains(id));
                let i = choose|i: int|
                    0 <= i < rest.len() && #[trigger] rest[i].name == id && rest[i].is_dir;
                assert(entries[i].name == id);
            } else {
                assert(entries[entries.len() - 1].name == id);
            }
        }
    }
}

/// Putting accounts in order leaves none out, adds none, and keeps their
/// numbers different.
pub proof fn ordered_ids_differ(from: Seq<AccountView>, to: Seq<AccountView>)
    requires
        stably_sorted(from, to),
        ids_differ(from),
    ensures
        ids_differ(to),
        forall|a: AccountView| #[trigger] to.contains(a) <==> from.contains(a),
{
    assert(from.no_duplicates());
    from.lemma_multiset_has_no_duplicates();
    to.lemma_multiset_has_no_duplicates_conv();
    assert forall|a: AccountView| #[trigger] to.contains(a) <==> from.contains(a) by {
        broadcast use group_to_multiset_ensures;

        assert(to.to_multiset().count(a) == from.to_multiset().count(a));
    }
    assert forall|i: int, j: int| 0 <= i < j < to.len() implies (#[trigger] to[i]).id
        != (#[trigger] to[j]).id by {
        assert(to[i] != to[j]);
        assert(to.contains(to[i]) && to.contains(to[j]));
        let x = choose|x: int| 0 <= x < from.len() && from[x] == to[i];
        let y = choose|y: int| 0 <= y < from.len() && from[y] == to[j];
        if x < y {
            assert(from[x].id != from[y].id);
        } else {
            assert(from[y].id != from[x].id);
        }
    }
}

/// Accounts read for different numbers have different numbers.
pub proof fn read_ids_differ(ids: Seq<Seq<char>>, files: Seq<FilesView>, cache_dir: PathView)
    requires
        ids.no_duplicates(),
    ensures
        ids_differ(accounts_of(ids, files, cache_dir)),
{
}

/// The accounts in the directories of the user data have different numbers.
pub proof fn listed_accounts_differ(
    entries: Seq<EntryView>,
    files: Seq<FilesView>,
    cache_dir: PathView,
    accounts: Seq<AccountView>,
)
    requires
        forall|i: int, j: int|
            0 <= i < j < entries.len() ==> (#[trigger] entries[i]).name
                != (#[trigger] entries[j]).name,
        stably_sorted(accounts_of(ids_of(entries), files, cache_dir), accounts),
    ensures
        ids_differ(accounts),
{
    account_ids_differ(entries);
    read_ids_differ(ids_of(entries), files, cache_dir);
    ordered_ids_differ(accounts_of(ids_of(entries), files, cache_dir), accounts);
}

/// The accounts in the directories of the user data have numbers that name
/// accounts.
pub proof fn listed_accounts_are_named(
    entries: Seq<EntryView>,
    files: Seq<FilesView>,
    cache_dir: PathView,
    accounts: Seq<AccountView>,
    i: int,
)
    requires
        stably_sorted(accounts_of(ids_of(entries), files, cache_dir), accounts),
        0 <= i < accounts.len(),
    ensures
        names_account(accounts[i].id),
{
    let from = accounts_of(ids_of(entries), files, cache_dir);
    assert(from.contains(accounts[i])) by {
        broadcast use group_to_multiset_ensures;

        assert(accounts.contains(accounts[i]));
        assert(from.to_multiset().count(accounts[i]) > 0);
    }
    let k = choose|k: int| 0 <= k < from.len() && from[k] == accounts[i];
    listed_ids_name_accounts(entries, k);
}

/// Updates do not make two accounts share a number.
pub proof fn updates_keep_ids_different(accounts: Seq<AccountView>, u: UpdateView)
    requires
        ids_differ(accounts),
    ensures
        ids_differ(with_update(accounts, u)),
{
    update_changes_one_account(accounts, u);
    let now = with_update(accounts, u);
    assert forall|i: int, j: int| 0 <= i < j < now.len() implies (#[trigger] now[i]).id
        != (#[trigger] now[j]).id by {
        assert(accounts[i].id != accounts[j].id);
    }
}

} // verus!
