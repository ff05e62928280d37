//! The per-user location memory and its persisted text format.
//!
//! The store maps a user identity to the last location the user
//! successfully queried. It is persisted as one JSON object of string keys
//! and string values, written by [`LocationStore::encode`] and read back by
//! [`LocationStore::decode`]; `'"'` and `'\'` inside a key or value are
//! escaped with a backslash. Decoding inverts encoding exactly
//! ([`lemma_store_round_trip`]), so a rewritten file reproduces the store.

use vstd::prelude::*;
use vstd::string::*;
use crate::strutil::str_eq;
use crate::strutil::push_char;

verus! {

/// One key or value as character sequences: the ghost image of an entry.
pub open spec fn kv_views(es: Seq<(String, String)>) -> Seq<(Seq<char>, Seq<char>)> {
    es.map_values(|e: (String, String)| (e.0@, e.1@))
}

pub open spec fn keys_unique(kvs: Seq<(Seq<char>, Seq<char>)>) -> bool {
    forall|i: int, j: int| 0 <= i < j < kvs.len() ==> kvs[i].0 != kvs[j].0
}

// ---------------------------------------------------------------------------
// The persisted format, encoding side.
// ---------------------------------------------------------------------------
/// How one character is written inside a quoted string.
pub open spec fn esc_char(c: char) -> Seq<char> {
    if c == '"' || c == '\\' {
        seq!['\\', c]
    } else {
        seq![c]
    }
}

/// A text with its quotes and backslashes escaped.
pub open spec fn esc(t: Seq<char>) -> Seq<char>
    decreases t.len(),
{
    if t.len() == 0 {
        Seq::empty()
    } else {
        esc_char(t[0]) + esc(t.drop_first())
    }
}

/// One `"key":"value"` pair.
pub open spec fn enc_entry(k: Seq<char>, v: Seq<char>) -> Seq<char> {
    seq!['"'] + esc(k) + seq!['"', ':', '"'] + esc(v) + seq!['"']
}

/// The pairs joined with commas.
pub open spec fn enc_entries(kvs: Seq<(Seq<char>, Seq<char>)>) -> Seq<char>
    decreases kvs.len(),
{
    if kvs.len() == 0 {
        Seq::empty()
    } else if kvs.len() == 1 {
        enc_entry(kvs[0].0, kvs[0].1)
    } else {
        enc_entry(kvs[0].0, kvs[0].1) + seq![','] + enc_entries(kvs.drop_first())
    }
}

/// The whole persisted document.
pub open spec fn enc_store(kvs: Seq<(Seq<char>, Seq<char>)>) -> Seq<char> {
    seq!['{'] + enc_entries(kvs) + seq!['}']
}

proof fn lemma_esc_snoc(t: Seq<char>, c: char)
    ensures
        esc(t.push(c)) == esc(t) + esc_char(c),
    decreases t.len(),
{
    if t.len() == 0 {
        assert(t.push(c)[0] == c);
        assert(t.push(c).drop_first() =~= Seq::<char>::empty());
        assert(esc(t.push(c)) == esc_char(c) + esc(Seq::<char>::empty()));
        assert(esc(t.push(c)) =~= esc(t) + esc_char(c));
    } else {
        assert(t.push(c)[0] == t[0]);
        assert(t.push(c).drop_first() =~= t.drop_first().push(c));
        lemma_esc_snoc(t.drop_first(), c);
        assert(esc(t.push(c)) == esc_char(t[0]) + esc(t.drop_first().push(c)));
        assert(esc(t.push(c)) =~= esc(t) + esc_char(c));
    }
}

proof fn lemma_enc_entries_snoc(kvs: Seq<(Seq<char>, Seq<char>)>, e: (Seq<char>, Seq<char>))
    requires
        kvs.len() >= 1,
    ensures
        enc_entries(kvs.push(e)) == enc_entries(kvs) + seq![','] + enc_entry(e.0, e.1),
    decreases kvs.len(),
{
    if kvs.len() == 1 {
        assert(kvs.push(e).drop_first() =~= seq![e]);
        assert(enc_entries(seq![e]) == enc_entry(e.0, e.1));
        assert(enc_entries(kvs.push(e)) =~= enc_entries(kvs) + seq![','] + enc_entry(e.0, e.1));
    } else {
        assert(kvs.push(e).drop_first() =~= kvs.drop_first().push(e));
        lemma_enc_entries_snoc(kvs.drop_first(), e);
        assert(enc_entries(kvs.push(e)) =~= enc_entries(kvs) + seq![','] + enc_entry(e.0, e.1));
    }
}

// ---------------------------------------------------------------------------
// The persisted format, decoding side.
// ---------------------------------------------------------------------------
/// Read a quoted string's content after its opening quote: the content and
/// what follows the closing quote, or `None` where no closing quote comes.
pub open spec fn dec_str(s: Seq<char>) -> Option<(Seq<char>, Seq<char>)>
    decreases s.len(),
{
    if s.len() == 0 {
        None
    } else if s[0] == '"' {
        Some((Seq::empty(), s.drop_first()))
    } else if s[0] == '\\' {
        if s.len() < 2 {
            None
        } else {
            match dec_str(s.skip(2)) {
                Some((t, rest)) => Some((seq![s[1]] + t, rest)),
                None => None,
            }
        }
    } else {
        match dec_str(s.drop_first()) {
            Some((t, rest)) => Some((seq![s[0]] + t, rest)),
            None => None,
        }
    }
}

/// Read `"k":"v"` pairs up to and over the closing `'}'`; `fuel` only
/// bounds the recursion and does not change the result once it is at least
/// the text's length plus one.
pub open spec fn dec_entries(s: Seq<char>, fuel: nat) -> Option<
    (Seq<(Seq<char>, Seq<char>)>, Seq<char>),
>
    decreases fuel,
{
    if fuel == 0 {
        None
    } else if s.len() == 0 || s[0] != '"' {
        None
    } else {
        match dec_str(s.drop_first()) {
            None => None,
            Some((k, r1)) => {
                if r1.len() < 2 || r1[0] != ':' || r1[1] != '"' {
                    None
                } else {
                    match dec_str(r1.skip(2)) {
                        None => None,
                        Some((v, r2)) => {
                            if r2.len() >= 1 && r2[0] == '}' {
                                Some((seq![(k, v)], r2.drop_first()))
                            } else if r2.len() >= 1 && r2[0] == ',' {
                                match dec_entries(r2.drop_first(), (fuel - 1) as nat) {
                                    Some((es, rest)) => Some((seq![(k, v)] + es, rest)),
                                    None => None,
                                }
                            } else {
                                None
                            }
                        },
                    }
                }
            },
        }
    }
}

/// The entries denoted by a whole persisted document, or `None` where the
/// text is not exactly a document this library writes.
pub open spec fn dec_store(s: Seq<char>) -> Option<Seq<(Seq<char>, Seq<char>)>> {
    if s.len() >= 1 && s[0] == '{' {
        if s.len() == 2 && s[1] == '}' {
            Some(Seq::empty())
        } else {
            match dec_entries(s.drop_first(), s.len() as nat) {
                Some((es, rest)) => {
                    if rest.len() == 0 {
                        Some(es)
                    } else {
                        None
                    }
                },
                None => None,
            }
        }
    } else {
        None
    }
}

proof fn lemma_dec_str_shrinks(s: Seq<char>)
    ensures
        dec_str(s) is Some ==> dec_str(s)->Some_0.1.len() < s.len(),
    decreases s.len(),
{
    if s.len() == 0 {
    } else if s[0] == '"' {
    } else if s[0] == '\\' {
        if s.len() >= 2 {
            lemma_dec_str_shrinks(s.skip(2));
        }
    } else {
        lemma_dec_str_shrinks(s.drop_first());
    }
}

proof fn lemma_dec_entries_fuel(s: Seq<char>, f1: nat, f2: nat)
    requires
        f1 > s.len(),
        f2 > s.len(),
    ensures
        dec_entries(s, f1) == dec_entries(s, f2),
    decreases s.len(),
{
    if s.len() == 0 || s[0] != '"' {
    } else {
        match dec_str(s.drop_first()) {
            None => {},
            Some((k, r1)) => {
                lemma_dec_str_shrinks(s.drop_first());
                if r1.len() < 2 || r1[0] != ':' || r1[1] != '"' {
                } else {
                    match dec_str(r1.skip(2)) {
                        None => {},
                        Some((v, r2)) => {
                            lemma_dec_str_shrinks(r1.skip(2));
                            if r2.len() >= 1 && r2[0] == ',' {
                                lemma_dec_entries_fuel(
                                    r2.drop_first(),
                                    (f1 - 1) as nat,
                                    (f2 - 1) as nat,
                                );
                            }
                        },
                    }
                }
            },
        }
    }
}

/// Decoding a string undoes escaping, whatever follows the closing quote.
proof fn lemma_dec_str_esc(t: Seq<char>, rest: Seq<char>)
    ensures
        dec_str(esc(t) + seq!['"'] + rest) == Some((t, rest)),
    decreases t.len(),
{
    let s = esc(t) + seq!['"'] + rest;
    if t.len() == 0 {
        assert(s[0] == '"');
        assert(s.drop_first() =~= rest);
    } else if t[0] == '"' || t[0] == '\\' {
        assert(s[0] == '\\');
        assert(s[1] == t[0]);
        assert(s.len() >= 2);
        assert(s.skip(2) =~= esc(t.drop_first()) + seq!['"'] + rest);
        lemma_dec_str_esc(t.drop_first(), rest);
        assert(seq![t[0]] + t.drop_first() =~= t);
    } else {
        assert(s[0] == t[0]);
        assert(s[0] != '"' && s[0] != '\\');
        assert(s.drop_first() =~= esc(t.drop_first()) + seq!['"'] + rest);
        lemma_dec_str_esc(t.drop_first(), rest);
        assert(seq![t[0]] + t.drop_first() =~= t);
    }
}

proof fn lemma_enc_entries_min_len(kvs: Seq<(Seq<char>, Seq<char>)>)
    ensures
        enc_entries(kvs).len() >= kvs.len(),
    decreases kvs.len(),
{
    if kvs.len() > 1 {
        lemma_enc_entries_min_len(kvs.drop_first());
    }
}

/// Decoding the encoded pairs gives them back, whatever follows the `'}'`.
proof fn lemma_dec_entries_enc(kvs: Seq<(Seq<char>, Seq<char>)>, rest: Seq<char>, fuel: nat)
    requires
        kvs.len() >= 1,
        fuel >= kvs.len(),
    ensures
        dec_entries(enc_entries(kvs) + seq!['}'] + rest, fuel) == Some((kvs, rest)),
    decreases kvs.len(),
{
    let s = enc_entries(kvs) + seq!['}'] + rest;
    let k = kvs[0].0;
    let v = kvs[0].1;
    let tail2: Seq<char> = if kvs.len() == 1 {
        seq!['}'] + rest
    } else {
        seq![','] + enc_entries(kvs.drop_first()) + seq!['}'] + rest
    };
    assert(s =~= seq!['"'] + esc(k) + seq!['"', ':', '"'] + esc(v) + seq!['"'] + tail2);
    assert(s[0] == '"');
    assert(s.drop_first() =~= esc(k) + seq!['"'] + (seq![':', '"'] + esc(v) + seq!['"'] + tail2));
    lemma_dec_str_esc(k, seq![':', '"'] + esc(v) + seq!['"'] + tail2);
    let r1 = seq![':', '"'] + esc(v) + seq!['"'] + tail2;
    assert(r1.len() >= 2 && r1[0] == ':' && r1[1] == '"');
    assert(r1.skip(2) =~= esc(v) + seq!['"'] + tail2);
    lemma_dec_str_esc(v, tail2);
    let r2 = tail2;
    if kvs.len() == 1 {
        assert(r2[0] == '}');
        assert(r2.drop_first() =~= rest);
        assert(seq![(k, v)] =~= kvs);
    } else {
        assert(r2[0] == ',');
        assert(r2.drop_first() =~= enc_entries(kvs.drop_first()) + seq!['}'] + rest);
        lemma_dec_entries_enc(kvs.drop_first(), rest, (fuel - 1) as nat);
        assert(seq![(k, v)] + kvs.drop_first() =~= kvs);
    }
}

/// Law: decoding an encoded store text yields exactly the entries that were
/// encoded — a rewritten document reproduces the store after a restart.
pub proof fn lemma_store_round_trip(kvs: Seq<(Seq<char>, Seq<char>)>)
    ensures
        dec_store(enc_store(kvs)) == Some(kvs),
{
    let s = enc_store(kvs);
    assert(s[0] == '{');
    if kvs.len() == 0 {
        assert(s.len() == 2 && s[1] == '}');
    } else {
        assert(enc_entries(kvs)[0] == '"') by {
            let e0 = enc_entry(kvs[0].0, kvs[0].1);
            assert(e0[0] == '"');
            if kvs.len() > 1 {
                assert(enc_entries(kvs)[0] == e0[0]);
            }
        }
        assert(s[1] == '"');
        assert(!(s.len() == 2 && s[1] == '}'));
        lemma_enc_entries_min_len(kvs);
        assert(s.drop_first() =~= enc_entries(kvs) + seq!['}'] + Seq::<char>::empty());
        lemma_dec_entries_enc(kvs, Seq::empty(), s.len() as nat);
    }
}

/// Law: a well-formed store's entries carry pairwise distinct users. With
/// [`lemma_store_round_trip`] this lets a caller refute `decode`'s failure
/// branch for a re-encoded store, so decoding is owed to succeed there.
pub proof fn lemma_wf_keys_unique(st: LocationStore)
    requires
        st.wf(),
    ensures
        keys_unique(st.entries_view()),
{
}

/// Law: the mapping a store holds is determined by its entries' texts
/// alone. Together with [`lemma_store_round_trip`] this says a store
/// decoded from an encoded document holds exactly the encoded mapping.
pub proof fn lemma_same_entries_same_map(a: LocationStore, b: LocationStore)
    requires
        a.entries_view() == b.entries_view(),
    ensures
        a@ == b@,
{
    lemma_map_of_views(a.entries@, b.entries@);
}

proof fn lemma_map_of_views(e1: Seq<(String, String)>, e2: Seq<(String, String)>)
    requires
        kv_views(e1) == kv_views(e2),
    ensures
        map_of(e1) == map_of(e2),
    decreases e1.len(),
{
    assert(kv_views(e1).len() == e1.len());
    assert(kv_views(e2).len() == e2.len());
    assert(e2.len() == e1.len());
    if e1.len() == 0 {
        assert(map_of(e1) =~= map_of(e2));
    } else {
        assert(kv_views(e1.drop_last()) =~= kv_views(e2.drop_last())) by {
            assert forall|k: int| 0 <= k < e1.len() - 1 implies kv_views(e1.drop_last())[k]
                == kv_views(e2.drop_last())[k] by {
                assert(kv_views(e1)[k] == kv_views(e2)[k]);
            }
        }
        lemma_map_of_views(e1.drop_last(), e2.drop_last());
        assert(kv_views(e1)[e1.len() - 1] == kv_views(e2)[e2.len() - 1]);
        assert(map_of(e1) =~= map_of(e2));
    }
}

// ---------------------------------------------------------------------------
// The store itself.
// ---------------------------------------------------------------------------
/// The mapping a store denotes; a later entry for the same key wins.
pub open spec fn map_of(es: Seq<(String, String)>) -> Map<Seq<char>, Seq<char>>
    decreases es.len(),
{
    if es.len() == 0 {
        Map::empty()
    } else {
        map_of(es.drop_last()).insert(es.last().0@, es.last().1@)
    }
}

/// The per-user location memory: each user's last successfully queried
/// location, at most one entry per user.
pub struct LocationStore {
    entries: Vec<(String, String)>,
}

impl LocationStore {
    /// The entries as character sequences, in stored order.
    pub closed spec fn entries_view(&self) -> Seq<(Seq<char>, Seq<char>)> {
        kv_views(self.entries@)
    }

    /// The mapping this store holds.
    pub closed spec fn view(&self) -> Map<Seq<char>, Seq<char>> {
        map_of(self.entries@)
    }

    /// At most one entry per user.
    pub closed spec fn wf(&self) -> bool {
        keys_unique(self.entries_view())
    }

    /// The empty store, used where no document or a corrupt one was found.
    pub fn new() -> (r: LocationStore)
        ensures
            r.wf(),
            r@ == Map::<Seq<char>, Seq<char>>::empty(),
            r.entries_view() == Seq::<(Seq<char>, Seq<char>)>::empty(),
    {
        let r = LocationStore { entries: Vec::new() };
        proof {
            assert(r.entries_view() =~= Seq::<(Seq<char>, Seq<char>)>::empty());
        }
        r
    }
}

proof fn lemma_map_of_present(es: Seq<(String, String)>, i: int)
    requires
        keys_unique(kv_views(es)),
        0 <= i < es.len(),
    ensures
        map_of(es).contains_key(es[i].0@),
        map_of(es)[es[i].0@] == es[i].1@,
    decreases es.len(),
{
    if i == es.len() - 1 {
    } else {
        assert forall|a: int, b: int|
            0 <= a < b < kv_views(es.drop_last()).len() implies kv_views(es.drop_last())[a].0
            != kv_views(es.drop_last())[b].0 by {
            assert(kv_views(es.drop_last())[a] == kv_views(es)[a]);
            assert(kv_views(es.drop_last())[b] == kv_views(es)[b]);
        }
        assert(es.drop_last()[i] == es[i]);
        lemma_map_of_present(es.drop_last(), i);
        assert(kv_views(es)[i].0 == es[i].0@);
        assert(kv_views(es)[es.len() - 1].0 == es.last().0@);
        assert(es[i].0@ != es.last().0@);
    }
}

proof fn lemma_map_of_absent(es: Seq<(String, String)>, k: Seq<char>)
    requires
        forall|i: int| 0 <= i < es.len() ==> es[i].0@ != k,
    ensures
        !map_of(es).contains_key(k),
    decreases es.len(),
{
    if es.len() > 0 {
        assert forall|i: int| 0 <= i < es.drop_last().len() implies es.drop_last()[i].0@ != k by {
            assert(es.drop_last()[i] == es[i]);
        }
        lemma_map_of_absent(es.drop_last(), k);
    }
}

proof fn lemma_map_of_update(es: Seq<(String, String)>, i: int, e: (String, String))
    requires
        keys_unique(kv_views(es)),
        0 <= i < es.len(),
        e.0@ == es[i].0@,
    ensures
        map_of(es.update(i, e)) == map_of(es).insert(e.0@, e.1@),
    decreases es.len(),
{
    let nes = es.update(i, e);
    if i == es.len() - 1 {
        assert(nes.drop_last() =~= es.drop_last());
        assert(nes.last() == e);
        assert(map_of(nes) =~= map_of(es).insert(e.0@, e.1@));
    } else {
        assert forall|a: int, b: int|
            0 <= a < b < kv_views(es.drop_last()).len() implies kv_views(es.drop_last())[a].0
            != kv_views(es.drop_last())[b].0 by {
            assert(kv_views(es.drop_last())[a] == kv_views(es)[a]);
            assert(kv_views(es.drop_last())[b] == kv_views(es)[b]);
        }
        assert(es.drop_last()[i] == es[i]);
        lemma_map_of_update(es.drop_last(), i, e);
        assert(nes.drop_last() =~= es.drop_last().update(i, e));
        assert(nes.last() == es.last());
        assert(kv_views(es)[i].0 == es[i].0@);
        assert(kv_views(es)[es.len() - 1].0 == es.last().0@);
        assert(e.0@ != es.last().0@);
        assert(map_of(nes) =~= map_of(es).insert(e.0@, e.1@));
    }
}

impl LocationStore {
    /// The stored location of `user`, if any.
    #[verifier::loop_isolation(false)]
    pub fn get<'a>(&'a self, user: &str) -> (r: Option<&'a String>)
        requires
            self.wf(),
        ensures
            match r {
                Some(l) => self@.contains_key(user@) && self@[user@] == l@,
                None => !self@.contains_key(user@),
            },
    {
        let n = self.entries.len();
        let mut i: usize = 0;
        while i < n
            invariant
                0 <= i <= n,
                forall|k: int| 0 <= k < i ==> self.entries@[k].0@ != user@,
            decreases n - i,
        {
            let entry = &self.entries[i];
            if str_eq(entry.0.as_str(), user) {
                proof {
                    lemma_map_of_present(self.entries@, i as int);
                }
                return Some(&entry.1);
            }
            i = i + 1;
        }
        proof {
            lemma_map_of_absent(self.entries@, user@);
        }
        None
    }

    /// Remember `loc` as the last location of `user`; an earlier entry for
    /// the same user is overwritten.
    #[verifier::loop_isolation(false)]
    pub fn put(&mut self, user: &str, loc: &str)
        requires
            old(self).wf(),
        ensures
            final(self).wf(),
            final(self)@ == old(self)@.insert(user@, loc@),
    {
        let n = self.entries.len();
        let mut i: usize = 0;
        while i < n
            invariant
                0 <= i <= n,
                *self == *old(self),
                forall|k: int| 0 <= k < i ==> self.entries@[k].0@ != user@,
            decreases n - i,
        {
            if str_eq(self.entries[i].0.as_str(), user) {
                let e = (user.to_owned(), loc.to_owned());
                proof {
                    lemma_map_of_update(self.entries@, i as int, e);
                }
                self.entries.remove(i);
                self.entries.insert(i, e);
                proof {
                    assert(self.entries@ =~= old(self).entries@.update(i as int, e));
                    assert forall|a: int, b: int|
                        0 <= a < b < self.entries_view().len() implies self.entries_view()[a].0
                        != self.entries_view()[b].0 by {
                        assert(self.entries_view()[a].0 == old(self).entries_view()[a].0);
                        assert(self.entries_view()[b].0 == old(self).entries_view()[b].0);
                    }
                }
                return ;
            }
            i = i + 1;
        }
        let e = (user.to_owned(), loc.to_owned());
        self.entries.push(e);
        proof {
            assert(self.entries@.drop_last() =~= old(self).entries@);
            assert forall|a: int, b: int|
                0 <= a < b < self.entries_view().len() implies self.entries_view()[a].0
                != self.entries_view()[b].0 by {
                if b < old(self).entries@.len() {
                    assert(self.entries_view()[a].0 == old(self).entries_view()[a].0);
                    assert(self.entries_view()[b].0 == old(self).entries_view()[b].0);
                } else {
                    assert(self.entries_view()[a].0 == old(self).entries_view()[a].0);
                    assert(self.entries_view()[b].0 == user@);
                    assert(old(self).entries@[a].0@ != user@);
                }
            }
        }
    }

    /// Write the store as one persisted document.
    #[verifier::loop_isolation(false)]
    pub fn encode(&self) -> (r: String)
        ensures
            r@ == enc_store(self.entries_view()),
    {
        let mut out = String::new();
        push_char(&mut out, '{');
        let n = self.entries.len();
        let mut i: usize = 0;
        while i < n
            invariant
                0 <= i <= n,
                out@ == seq!['{'] + enc_entries(self.entries_view().take(i as int)),
            decreases n - i,
        {
            if i > 0 {
                push_char(&mut out, ',');
            }
            push_char(&mut out, '"');
            push_escaped(&mut out, self.entries[i].0.as_str());
            push_char(&mut out, '"');
            push_char(&mut out, ':');
            push_char(&mut out, '"');
            push_escaped(&mut out, self.entries[i].1.as_str());
            push_char(&mut out, '"');
            proof {
                let pre = self.entries_view().take(i as int);
                let e = self.entries_view()[i as int];
                assert(self.entries_view().take(i + 1) =~= pre.push(e));
                if i == 0 {
                    assert(enc_entries(pre.push(e)) == enc_entry(e.0, e.1)) by {
                        assert(pre.push(e)[0] == e);
                    }
                } else {
                    lemma_enc_entries_snoc(pre, e);
                }
                assert(out@ =~= seq!['{'] + enc_entries(self.entries_view().take(i + 1)));
            }
            i = i + 1;
        }
        push_char(&mut out, '}');
        proof {
            assert(self.entries_view().take(n as int) =~= self.entries_view());
            assert(out@ =~= enc_store(self.entries_view()));
        }
        out
    }
}

/// Read one quoted string's content, starting after its opening quote at
/// position `i`; gives the content and the position after the closing quote.
fn dec_str_x(s: &str, i: usize) -> (r: Option<(String, usize)>)
    requires
        i <= s@.len(),
    ensures
        match r {
            Some((t, j)) => {
                &&& dec_str(s@.skip(i as int)) == Some((t@, s@.skip(j as int)))
                &&& i < j <= s@.len()
            },
            None => dec_str(s@.skip(i as int)) is None,
        },
    decreases s@.len() - i,
{
    let n = s.unicode_len();
    if i >= n {
        return None;
    }
    let c = s.get_char(i);
    proof {
        assert(s@.skip(i as int)[0] == s@[i as int]);
    }
    if c == '"' {
        proof {
            assert(s@.skip(i as int).drop_first() =~= s@.skip(i + 1));
        }
        Some((String::new(), i + 1))
    } else if c == '\\' {
        if i + 1 >= n {
            return None;
        }
        let c2 = s.get_char(i + 1);
        proof {
            assert(s@.skip(i as int).skip(2) =~= s@.skip(i + 2));
            assert(s@.skip(i as int)[1] == s@[i + 1]);
        }
        match dec_str_x(s, i + 2) {
            Some((t, j)) => {
                let mut out = String::new();
                push_char(&mut out, c2);
                out.append(t.as_str());
                proof {
                    assert(out@ =~= seq![s@[i + 1]] + t@);
                }
                Some((out, j))
            },
            None => None,
        }
    } else {
        proof {
            assert(s@.skip(i as int).drop_first() =~= s@.skip(i + 1));
        }
        match dec_str_x(s, i + 1) {
            Some((t, j)) => {
                let mut out = String::new();
                push_char(&mut out, c);
                out.append(t.as_str());
                proof {
                    assert(out@ =~= seq![s@[i as int]] + t@);
                }
                Some((out, j))
            },
            None => None,
        }
    }
}

/// Read `"k":"v"` pairs from position `i` up to and over the closing `'}'`.
fn dec_entries_x(s: &str, i: usize) -> (r: Option<(Vec<(String, String)>, usize)>)
    requires
        1 <= i <= s@.len(),
    ensures
        match r {
            Some((es, j)) => {
                &&& dec_entries(s@.skip(i as int), (s@.len() + 1 - i) as nat) == Some(
                    (kv_views(es@), s@.skip(j as int)),
                )
                &&& i < j <= s@.len()
            },
            None => dec_entries(s@.skip(i as int), (s@.len() + 1 - i) as nat) is None,
        },
    decreases s@.len() - i,
{
    let ghost suf = s@.skip(i as int);
    let ghost fuel = (s@.len() + 1 - i) as nat;
    let n = s.unicode_len();
    if i >= n {
        return None;
    }
    proof {
        assert(suf[0] == s@[i as int]);
        assert(suf.drop_first() =~= s@.skip(i + 1));
    }
    if s.get_char(i) != '"' {
        return None;
    }
    match dec_str_x(s, i + 1) {
        None => None,
        Some((k, j1)) => {
            let ghost r1 = s@.skip(j1 as int);
            if n - j1 < 2 {
                proof {
                    assert(r1.len() < 2);
                }
                return None;
            }
            proof {
                assert(r1[0] == s@[j1 as int]);
                assert(r1[1] == s@[j1 + 1]);
                assert(r1.skip(2) =~= s@.skip(j1 + 2));
            }
            if s.get_char(j1) != ':' || s.get_char(j1 + 1) != '"' {
                return None;
            }
            match dec_str_x(s, j1 + 2) {
                None => None,
                Some((v, j2)) => {
                    let ghost r2 = s@.skip(j2 as int);
                    if j2 >= n {
                        proof {
                            assert(r2.len() == 0);
                        }
                        return None;
                    }
                    proof {
                        assert(r2[0] == s@[j2 as int]);
                        assert(r2.drop_first() =~= s@.skip(j2 + 1));
                    }
                    let c = s.get_char(j2);
                    if c == '}' {
                        let mut es: Vec<(String, String)> = Vec::new();
                        es.push((k, v));
                        proof {
                            assert(kv_views(es@) =~= seq![(k@, v@)]);
                        }
                        Some((es, j2 + 1))
                    } else if c == ',' {
                        proof {
                            lemma_dec_entries_fuel(
                                s@.skip(j2 + 1),
                                (s@.len() - j2) as nat,
                                (fuel - 1) as nat,
                            );
                        }
                        match dec_entries_x(s, j2 + 1) {
                            None => None,
                            Some((es2, j3)) => {
                                let ghost pre = es2@;
                                let mut es2 = es2;
                                es2.insert(0, (k, v));
                                proof {
                                    assert(kv_views(es2@) =~= seq![(k@, v@)] + kv_views(pre));
                                }
                                Some((es2, j3))
                            },
                        }
                    } else {
                        None
                    }
                },
            }
        },
    }
}

impl LocationStore {
    /// Read a persisted document back; `None` where the text is not a
    /// document this library writes, or repeats a user.
    #[verifier::loop_isolation(false)]
    pub fn decode(s: &str) -> (r: Option<LocationStore>)
        ensures
            match r {
                Some(st) => {
                    &&& st.wf()
                    &&& dec_store(s@) == Some(st.entries_view())
                },
                None => dec_store(s@) is None || !keys_unique(dec_store(s@)->Some_0),
            },
    {
        let n = s.unicode_len();
        if n < 1 || s.get_char(0) != '{' {
            return None;
        }
        if n == 2 && s.get_char(1) == '}' {
            let st = LocationStore::new();
            return Some(st);
        }
        match dec_entries_x(s, 1) {
            None => None,
            Some((es, j)) => {
                if j < n {
                    return None;
                }
                proof {
                    assert(s@.skip(j as int).len() == 0);
                }
                let m = es.len();
                let mut a: usize = 0;
                while a < m
                    invariant
                        0 <= a <= m,
                        forall|x: int, y: int|
                            0 <= x < y < a ==> es@[x].0@ != es@[y].0@,
                    decreases m - a,
                {
                    let mut b: usize = 0;
                    while b < a
                        invariant
                            0 <= b <= a < m,
                            forall|x: int| 0 <= x < b ==> es@[x].0@ != es@[a as int].0@,
                        decreases a - b,
                    {
                        if str_eq(es[b].0.as_str(), es[a].0.as_str()) {
                            proof {
                                let kvs = kv_views(es@);
                                assert(kvs[b as int].0 == kvs[a as int].0);
                                assert(!keys_unique(kvs));
                            }
                            return None;
                        }
                        b = b + 1;
                    }
                    a = a + 1;
                }
                let st = LocationStore { entries: es };
                proof {
                    assert forall|x: int, y: int|
                        0 <= x < y < st.entries_view().len() implies st.entries_view()[x].0
                        != st.entries_view()[y].0 by {
                        assert(st.entries_view()[x].0 == es@[x].0@);
                        assert(st.entries_view()[y].0 == es@[y].0@);
                    }
                }
                Some(st)
            },
        }
    }
}

/// Append `t` with its quotes and backslashes escaped.
#[verifier::loop_isolation(false)]
fn push_escaped(out: &mut String, t: &str)
    ensures
        final(out)@ == old(out)@ + esc(t@),
{
    let n = t.unicode_len();
    let mut i: usize = 0;
    while i < n
        invariant
            0 <= i <= n,
            out@ == old(out)@ + esc(t@.take(i as int)),
        decreases n - i,
    {
        let c = t.get_char(i);
        if c == '"' || c == '\\' {
            push_char(out, '\\');
        }
        push_char(out, c);
        proof {
            assert(t@.take(i + 1) =~= t@.take(i as int).push(c));
            lemma_esc_snoc(t@.take(i as int), c);
            assert(out@ =~= old(out)@ + esc(t@.take(i + 1)));
        }
        i = i + 1;
    }
    proof {
        assert(t@.take(n as int) =~= t@);
    }
}

} // verus!
