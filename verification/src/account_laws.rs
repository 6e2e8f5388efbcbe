//! What holds of all accounts: how they are shown, found, read, updated and
//! listed.

use vstd::prelude::*;
use vstd::seq_lib::*;

use crate::account::{account_names_are_plain, account_of, avatar_name, avatar_of, conduct_name, conduct_of_account, local_config_of, ids_of, local_name, local_name_is_the_first_entry, names_account, position_of, with_update, AccountFiles, AccountUpdate, AccountView, EntryView, FilesView, SteamAccount, UpdateView, UserdataEntry};
use crate::account_order::{accounts_of, stably_sorted, with_key};
use crate::conduct::conduct_of;
use crate::path::{leading, names_lead_down, pieces, texts_lead_on, PathView, Platform};
use crate::path_laws::{plain_texts_are_names, separators_part_names};
use crate::pattern::{found_all, is_space, quoted_at, CONDUCT_PATTERN};
use crate::text::{has_infix, infix_at, lowercase, numeric_char, text_le};

verus! {

/// An account says what its fields hold.
pub proof fn accounts_say_their_fields(a: SteamAccount)
    ensures
        a.deep_view() == a@,
        a@.id == a.id@,
        a@.persona_name == a.persona_name@,
        a@.avatar_path is Some <==> a.avatar_path is Some,
        a.avatar_path is Some ==> a@.avatar_path->0 == a.avatar_path->0@,
        a@.conduct is Some <==> a.conduct is Some,
        a.conduct is Some ==> a@.conduct->0 == a.conduct->0@,
{
}

/// An update says what its fields hold.
pub proof fn updates_say_their_fields(u: AccountUpdate)
    ensures
        u.deep_view() == u@,
        u@.id == u.id@,
        u@.persona_name is Some <==> u.persona_name is Some,
        u.persona_name is Some ==> u@.persona_name->0 == u.persona_name->0@,
        u@.avatar_path is Some <==> u.avatar_path is Some,
        u.avatar_path is Some ==> u@.avatar_path->0 == u.avatar_path->0@,
{
}

/// What is known of the disk says what its fields hold.
pub proof fn entries_and_files_say_their_fields(e: UserdataEntry, f: AccountFiles)
    ensures
        e.deep_view() == e@,
        f.deep_view() == f@,
        e@.name == e.name@,
        e@.is_dir == e.is_dir,
        f@.avatar_cached == f.avatar_cached,
        f@.local_config is Some <==> f.local_config is Some,
        f.local_config is Some ==> f@.local_config->0 == f.local_config->0@,
        f@.conduct is Some <==> f.conduct is Some,
        f.conduct is Some ==> f@.conduct->0 == f.conduct->0@,
{
}

/// An account without a name is shown by its number alone; one with a name by
/// the name, and the number after it in brackets.
pub proof fn accounts_are_shown(a: AccountView)
    ensures
        a.persona_name.len() == 0 ==> a.display_name() == a.id,
        a.persona_name.len() > 0 ==> a.display_name() == a.persona_name + seq![' ', '('] + a.id
            + seq![')'],
{
    reveal_strlit(" (");
    reveal_strlit(")");
    assert(" ("@ =~= seq![' ', '(']);
    assert(")"@ =~= seq![')']);
}

/// The address of a picture is that of the file, as it is written.
pub proof fn pictures_have_addresses(a: AccountView)
    ensures
        a.avatar_uri() is Some <==> a.avatar_path is Some,
        a.avatar_path matches Some(p) ==> a.avatar_uri() == Some("file://"@ + (p.root + p.body)),
{
}

/// A search finds an account exactly when it is empty, or what is shown of the
/// account contains it, both in lower case.
pub proof fn searches_go_by_what_is_shown(a: AccountView, query: Seq<char>)
    ensures
        query.len() == 0 ==> a.found_by(query),
        query.len() > 0 && a.persona_name.len() == 0 ==> (a.found_by(query) <==> has_infix(
            lowercase(a.id),
            lowercase(query),
        )),
        query.len() > 0 && a.persona_name.len() > 0 ==> (a.found_by(query) <==> has_infix(
            lowercase(a.persona_name + seq![' ', '('] + a.id + seq![')']),
            lowercase(query),
        )),
{
    accounts_are_shown(a);
}

proof fn lemma_not_numeric(c: char)
    requires
        c < '\u{80}',
        !('0' <= c && c <= '9'),
    ensures
        !numeric_char(c),
{
}

/// A directory belongs to an account exactly when every character of its name is
/// numeric and it is not called zero. Of names in ASCII these are the rows of
/// digits.
pub proof fn numeric_names_are_accounts(name: Seq<char>)
    ensures
        names_account(name) <==> name != seq!['0'] && forall|i: int|
            0 <= i < name.len() ==> numeric_char(#[trigger] name[i]),
        (forall|i: int| 0 <= i < name.len() ==> '0' <= #[trigger] name[i] && name[i] <= '9') && name
            != seq!['0'] ==> names_account(name),
        (exists|i: int|
            0 <= i < name.len() && (#[trigger] name[i]) < '\u{80}' && !('0' <= name[i] && name[i]
                <= '9')) ==> !names_account(name),
{
    reveal_strlit("0");
    assert("0"@ =~= seq!['0']);
    if forall|i: int| 0 <= i < name.len() ==> '0' <= #[trigger] name[i] && name[i] <= '9' {
        assert forall|i: int| 0 <= i < name.len() implies numeric_char(#[trigger] name[i]) by {
            assert('0' <= name[i] && name[i] <= '9');
        }
    }
    if exists|i: int|
        0 <= i < name.len() && (#[trigger] name[i]) < '\u{80}' && !('0' <= name[i] && name[i]
            <= '9') {
        let i = choose|i: int|
            0 <= i < name.len() && (#[trigger] name[i]) < '\u{80}' && !('0' <= name[i] && name[i]
                <= '9');
        lemma_not_numeric(name[i]);
    }
}

/// The accounts of two listings are those of the first and then those of the
/// second; a single entry gives its name where it is a directory that belongs to
/// an account, and nothing otherwise.
pub proof fn accounts_are_listed_one_by_one(a: Seq<EntryView>, b: Seq<EntryView>, e: EntryView)
    ensures
        ids_of(Seq::empty()) == Seq::<Seq<char>>::empty(),
        ids_of(a + b) == ids_of(a) + ids_of(b),
        ids_of(seq![e]) == if e.is_dir && e.name != seq!['0'] && (forall|i: int|
            0 <= i < e.name.len() ==> numeric_char(#[trigger] e.name[i])) {
            seq![e.name]
        } else {
            Seq::empty()
        },
    decreases b.len(),
{
    numeric_names_are_accounts(e.name);
    let one = seq![e];
    assert(one.drop_last() == Seq::<EntryView>::empty());
    assert(one.last() == e);
    assert(ids_of(one.drop_last()) == Seq::<Seq<char>>::empty());
    if b.len() == 0 {
        assert(a + b == a);
        assert(ids_of(a) + ids_of(b) =~= ids_of(a));
    } else {
        accounts_are_listed_one_by_one(a, b.drop_last(), e);
        assert((a + b).drop_last() == a + b.drop_last());
        assert((a + b).last() == b.last());
        assert(ids_of(a + b) =~= ids_of(a) + ids_of(b));
    }
}

/// An account has the number that it was read for; its name is what its local
/// configuration says, and it has none without one; its picture is the file in
/// the cache that is called after the number, where that is there; its summary is
/// the one in its conduct file.
pub proof fn accounts_are_read_from_their_files(
    id: Seq<char>,
    files: FilesView,
    cache_dir: PathView,
)
    ensures
        ({
            let a = account_of(id, files, cache_dir);
            &&& a.id == id
            &&& files.local_config is None ==> a.persona_name.len() == 0
            &&& files.local_config is Some ==> a.persona_name == local_name(files.local_config)
            &&& files.avatar_cached ==> a.avatar_path == Some(cache_dir.join(id + ".jpg"@))
            &&& !files.avatar_cached ==> a.avatar_path is None
            &&& files.conduct is None ==> a.conduct is None
            &&& files.conduct matches Some(text) ==> a.conduct == conduct_of(
                found_all(CONDUCT_PATTERN@, text),
            )
        }),
{
}

/// The files of an account are called after its number.
pub proof fn files_are_called_after_the_number(id: Seq<char>)
    ensures
        avatar_name(id) == id + ".jpg"@,
        conduct_name(id) == "latest_conduct_1."@ + id + ".txt"@,
{
}

/// The name of an account is what stands in quotes after the label for it and
/// some white space, where the label comes first in the configuration.
pub proof fn names_stand_after_their_label(
    before: Seq<char>,
    space: Seq<char>,
    name: Seq<char>,
    after: Seq<char>,
)
    requires
        forall|i: int| 0 <= i < before.len() ==> #[trigger] before[i] != '"',
        space.len() > 0,
        forall|i: int| 0 <= i < space.len() ==> is_space(#[trigger] space[i]),
        name.len() > 0,
        forall|i: int| 0 <= i < name.len() ==> #[trigger] name[i] != '"',
    ensures
        local_name(
            Some(before + "\"PersonaName\""@ + space + seq!['"'] + name + seq!['"'] + after),
        ) == name,
{
    reveal_strlit("\"PersonaName\"");
    reveal_strlit("PersonaName");
    let label = "\"PersonaName\""@;
    let quoted = seq!['"'] + "PersonaName"@ + seq!['"'];
    assert(label =~= quoted);
    let text = before + label + space + seq!['"'] + name + seq!['"'] + after;
    let s = before.len() as int;
    let o = s + label.len() + space.len();
    let c = o + 1 + name.len();
    assert(text.subrange(s, s + quoted.len()) =~= quoted);
    assert(infix_at(text, quoted, s));
    assert forall|i: int| s + quoted.len() <= i < o implies is_space(#[trigger] text[i]) by {
        assert(text[i] == space[i - s - quoted.len()]);
    }
    assert forall|i: int| o < i < c implies #[trigger] text[i] != '"' by {
        assert(text[i] == name[i - o - 1]);
    }
    assert(text[o] == '"' && text[c] == '"');
    assert(quoted_at(text, "PersonaName"@, s, o, c));
    assert forall|t: int, p: int, d: int| 0 <= t < s implies !#[trigger] quoted_at(
        text,
        "PersonaName"@,
        t,
        p,
        d,
    ) by {
        assert(text[t] == before[t]);
        if infix_at(text, quoted, t) {
            assert(text.subrange(t, t + quoted.len())[0] == quoted[0]);
        }
    }
    local_name_is_the_first_entry(text, s, o, c);
    assert(text.subrange(o + 1, c) =~= name);
}

proof fn lemma_position(accounts: Seq<AccountView>, id: Seq<char>)
    ensures
        position_of(accounts, id) <= accounts.len(),
        position_of(accounts, id) < accounts.len() ==> accounts[position_of(
            accounts,
            id,
        ) as int].id == id,
        forall|k: int| 0 <= k < position_of(accounts, id) ==> #[trigger] accounts[k].id != id,
    decreases accounts.len(),
{
    if accounts.len() > 0 && accounts.first().id != id {
        let rest = accounts.drop_first();
        lemma_position(rest, id);
        assert forall|k: int| 0 <= k < position_of(accounts, id) implies #[trigger] accounts[k].id
            != id by {
            if k > 0 {
                assert(rest[k - 1].id != id);
            }
        }
    }
}

/// An update is about an account exactly when one has its number.
pub proof fn updates_go_by_the_number(accounts: Seq<AccountView>, id: Seq<char>)
    ensures
        position_of(accounts, id) < accounts.len() <==> exists|k: int|
            0 <= k < accounts.len() && (#[trigger] accounts[k]).id == id,
{
    lemma_position(accounts, id);
    if position_of(accounts, id) < accounts.len() {
        assert(accounts[position_of(accounts, id) as int].id == id);
    }
}

/// The first account with the number of an update gets the name where the update
/// has one and the picture where it has one, each whether or not the other is
/// there, and keeps what the update does not have. Its number and its summary
/// stay, and so does every other account.
pub proof fn updates_fill_the_fields(accounts: Seq<AccountView>, u: UpdateView, k: int)
    requires
        0 <= k < accounts.len(),
        accounts[k].id == u.id,
        forall|j: int| 0 <= j < k ==> (#[trigger] accounts[j]).id != u.id,
    ensures
        ({
            let now = with_update(accounts, u);
            &&& now.len() == accounts.len()
            &&& u.persona_name matches Some(name) ==> now[k].persona_name == name
            &&& u.persona_name is None ==> now[k].persona_name == accounts[k].persona_name
            &&& u.avatar_path matches Some(p) ==> now[k].avatar_path == Some(p)
            &&& u.avatar_path is None ==> now[k].avatar_path == accounts[k].avatar_path
            &&& now[k].id == accounts[k].id
            &&& now[k].conduct == accounts[k].conduct
            &&& forall|j: int| 0 <= j < now.len() && j != k ==> #[trigger] now[j] == accounts[j]
        }),
{
    lemma_position(accounts, u.id);
    let p = position_of(accounts, u.id) as int;
    if p < k {
        assert(accounts[p].id != u.id);
    }
    assert(p == k);
}

/// An update for a number that no account has changes nothing.
pub proof fn strange_updates_change_nothing(accounts: Seq<AccountView>, u: UpdateView)
    requires
        forall|j: int| 0 <= j < accounts.len() ==> (#[trigger] accounts[j]).id != u.id,
    ensures
        with_update(accounts, u) == accounts,
{
    lemma_position(accounts, u.id);
}

/// The accounts are listed in the order of their names in lower case, the whole
/// names being compared, and the number in place of a name that is missing.
pub proof fn names_are_in_order(
    from: Seq<AccountView>,
    to: Seq<AccountView>,
    i: int,
    j: int,
)
    requires
        stably_sorted(from, to),
        0 <= i <= j < to.len(),
    ensures
        to[i].persona_name.len() > 0 && to[j].persona_name.len() > 0 ==> text_le(
            lowercase(to[i].persona_name),
            lowercase(to[j].persona_name),
        ),
        to[i].persona_name.len() == 0 && to[j].persona_name.len() > 0 ==> text_le(
            lowercase(to[i].id),
            lowercase(to[j].persona_name),
        ),
        to[i].persona_name.len() > 0 && to[j].persona_name.len() == 0 ==> text_le(
            lowercase(to[i].persona_name),
            lowercase(to[j].id),
        ),
        to[i].persona_name.len() == 0 && to[j].persona_name.len() == 0 ==> text_le(
            lowercase(to[i].id),
            lowercase(to[j].id),
        ),
{
    assert(text_le(to[i].sort_key(), to[j].sort_key()));
}

/// Putting accounts in order keeps each of them, as often as it was there.
pub proof fn ordered_accounts_are_the_same(from: Seq<AccountView>, to: Seq<AccountView>)
    requires
        stably_sorted(from, to),
    ensures
        to.len() == from.len(),
        to.to_multiset() == from.to_multiset(),
        forall|a: AccountView| #[trigger] to.contains(a) <==> from.contains(a),
{
    broadcast use group_to_multiset_ensures;

    assert(to.to_multiset().len() == from.to_multiset().len());
    assert forall|a: AccountView| #[trigger] to.contains(a) <==> from.contains(a) by {
        assert(to.to_multiset().count(a) == from.to_multiset().count(a));
    }
}

proof fn lemma_kept_apart(s: Seq<AccountView>, key: Seq<char>, i: int, j: int)
    requires
        0 <= i < j < s.len(),
        s[i].sort_key() == key,
        s[j].sort_key() == key,
    ensures
        exists|p: int, q: int|
            0 <= p < q < with_key(s, key).len() && #[trigger] with_key(s, key)[p] == s[i]
                && #[trigger] with_key(s, key)[q] == s[j],
{
    let pred = |a: AccountView| a.sort_key() == key;
    let head = s.take(j);
    let tail = s.skip(j);
    assert(s == head + tail);
    Seq::filter_distributes_over_add(head, tail, pred);
    assert(head[i] == s[i]);
    assert(tail[0] == s[j]);
    let x = head.filter(pred);
    let y = tail.filter(pred);
    broadcast use group_filter_ensures;

    assert(head.contains(s[i]) && pred(s[i]));
    assert(tail.contains(s[j]) && pred(s[j]));
    assert(x.contains(s[i]));
    assert(y.contains(s[j]));
    let p = choose|p: int| 0 <= p < x.len() && x[p] == s[i];
    let q = choose|q: int| 0 <= q < y.len() && y[q] == s[j];
    let all = with_key(s, key);
    assert(all == x + y);
    assert(all[p] == s[i]);
    assert(all[x.len() + q] == s[j]);
}

proof fn lemma_found_apart(s: Seq<AccountView>, key: Seq<char>, p: int, q: int)
    requires
        0 <= p < q < with_key(s, key).len(),
    ensures
        exists|a: int, b: int|
            0 <= a < b < s.len() && #[trigger] s[a] == with_key(s, key)[p] && #[trigger] s[b]
                == with_key(s, key)[q],
    decreases s.len(),
{
    reveal(Seq::filter);
    let pred = |a: AccountView| a.sort_key() == key;
    let all = with_key(s, key);
    let rest = s.drop_last();
    let fewer = with_key(rest, key);
    assert(s.len() > 0);
    if q < fewer.len() {
        lemma_found_apart(rest, key, p, q);
        let (a, b) = choose|a: int, b: int|
            0 <= a < b < rest.len() && #[trigger] rest[a] == fewer[p] && #[trigger] rest[b]
                == fewer[q];
        assert(s[a] == all[p] && s[b] == all[q]);
    } else {
        assert(all == fewer.push(s.last()));
        assert(fewer.contains(fewer[p]));
        rest.lemma_filter_contains_rev(pred, fewer[p]);
        let a = choose|a: int| 0 <= a < rest.len() && rest[a] == fewer[p];
        let b = s.len() - 1;
        assert(s[a] == all[p] && s[b] == all[q]);
    }
}

/// Accounts that go by the same name in lower case, or by the same number where
/// they have no name, keep the order that they had.
pub proof fn equal_names_keep_their_order(
    from: Seq<AccountView>,
    to: Seq<AccountView>,
    i: int,
    j: int,
)
    requires
        stably_sorted(from, to),
        0 <= i < j < to.len(),
        ({
            let x = to[i];
            let y = to[j];
            lowercase(if x.persona_name.len() == 0 { x.id } else { x.persona_name }) == lowercase(
                if y.persona_name.len() == 0 { y.id } else { y.persona_name },
            )
        }),
    ensures
        exists|a: int, b: int|
            0 <= a < b < from.len() && #[trigger] from[a] == to[i] && #[trigger] from[b] == to[j],
{
    let key = to[i].sort_key();
    lemma_kept_apart(to, key, i, j);
    assert(with_key(to, key) == with_key(from, key));
    let (p, q) = choose|p: int, q: int|
        0 <= p < q < with_key(to, key).len() && #[trigger] with_key(to, key)[p] == to[i]
            && #[trigger] with_key(to, key)[q] == to[j];
    lemma_found_apart(from, key, p, q);
}

/// One account is read for each number, from the files in its place.
pub proof fn each_number_is_read(
    ids: Seq<Seq<char>>,
    files: Seq<FilesView>,
    cache_dir: PathView,
    i: int,
)
    requires
        ids.len() == files.len(),
        0 <= i < ids.len(),
    ensures
        accounts_of(ids, files, cache_dir).len() == ids.len(),
        accounts_of(ids, files, cache_dir)[i] == account_of(ids[i], files[i], cache_dir),
        accounts_of(ids, files, cache_dir)[i].id == ids[i],
{
}

/// The files of an account whose number is one name lie in their directories, on
/// every platform: the picture and the summary one name below, called after the
/// number, and the local configuration in the directory of the number.
pub proof fn files_of_accounts_have_their_places(dir: PathView, id: Seq<char>)
    requires
        names_account(id),
        id.len() > 0,
    ensures
        avatar_of(dir, id).platform == dir.platform && avatar_of(dir, id).root == dir.root,
        avatar_of(dir, id).names() == dir.names().push(id + ".jpg"@),
        conduct_of_account(dir, id).platform == dir.platform && conduct_of_account(dir, id).root
            == dir.root,
        conduct_of_account(dir, id).names() == dir.names().push(
            "latest_conduct_1."@ + id + ".txt"@,
        ),
        local_config_of(dir, id).platform == dir.platform && local_config_of(dir, id).root
            == dir.root,
        local_config_of(dir, id).names() == dir.names() + seq![
            id,
            "config"@,
            "localconfig.vdf"@,
        ],
        local_config_of(dir, id) == dir.below(id).below("config/localconfig.vdf"@),
{
    account_names_are_plain(id, dir);
    names_lead_down(dir, avatar_name(id));
    names_lead_down(dir, conduct_name(id));
    names_lead_down(dir, id);
    let text = "config/localconfig.vdf"@;
    texts_lead_on(dir.below(id), text);
    lemma_config_names(dir.platform);
    assert(local_config_of(dir, id).names() =~= dir.names() + seq![
        id,
        "config"@,
        "localconfig.vdf"@,
    ]);
}

proof fn lemma_config_names(platform: Platform)
    ensures
        leading(pieces(platform, "config/localconfig.vdf"@)) == seq![
            "config"@,
            "localconfig.vdf"@,
        ],
{
    reveal_strlit("config/localconfig.vdf");
    reveal_strlit("config");
    reveal_strlit("localconfig.vdf");
    let a = "config"@;
    let b = "localconfig.vdf"@;
    let root = seq!['/'];
    assert("config/localconfig.vdf"@ =~= a.push('/') + b);
    separators_part_names(platform, root, a, '/', b);
    assert(a =~= seq!['c', 'o', 'n', 'f', 'i', 'g']);
    assert(b =~= seq![
        'l', 'o', 'c', 'a', 'l', 'c', 'o', 'n', 'f', 'i', 'g', '.', 'v', 'd', 'f',
    ]);
    plain_texts_are_names(platform, root, a);
    plain_texts_are_names(platform, root, b);
    assert(seq![a] + seq![b] =~= seq![a, b]);
}

} // verus!
