//! The environment-variable map handed to the supervised process.
//!
//! Keys are normalized on insertion: upper-cased and prefixed with the
//! `MEMOS_` namespace token unless already so prefixed.  When two inserts
//! collide on a key, the last writer wins.

use vstd::prelude::*;

use crate::text::prefix_at;
use crate::text::str_eq;

verus! {

/// What `str::to_uppercase` returns for a given character sequence; the
/// result depends on the characters alone.
pub uninterp spec fn upper_of(s: Seq<char>) -> Seq<char>;

/// Relies on `str::to_uppercase`: the Unicode upper-cased form of `s`,
/// a function of the characters of `s` alone.
#[verifier::external_body]
fn to_upper(s: &str) -> (r: String)
    ensures
        r@ == upper_of(s@),
{
    s.to_uppercase()
}

/// The namespace token every key of the map carries.
pub open spec fn env_prefix() -> Seq<char> {
    "MEMOS_"@
}

/// A normalized key: the upper-cased key, prefixed with the namespace
/// token unless the upper-cased form already starts with it.
pub open spec fn normalize_key(k: Seq<char>) -> Seq<char> {
    let u = upper_of(k);
    if prefix_at(u, 0, env_prefix()) {
        u
    } else {
        env_prefix() + u
    }
}

/// Every normalized key starts with the namespace token.
pub proof fn lemma_normalized_prefixed(k: Seq<char>)
    ensures
        prefix_at(normalize_key(k), 0, env_prefix()),
{
    let u = upper_of(k);
    if !prefix_at(u, 0, env_prefix()) {
        assert((env_prefix() + u).subrange(0, env_prefix().len() as int) =~= env_prefix());
    }
}

/// Make an environment-variable key suitable for the supervised server.
pub fn make_env_key(key: &str) -> (r: String)
    ensures
        r@ == normalize_key(key@),
{
    let up = to_upper(key);
    if crate::text::has_prefix_at(up.as_str(), 0, "MEMOS_") {
        up
    } else {
        let mut s: String = "MEMOS_".to_owned();
        s.append(up.as_str());
        s
    }
}

/// The mapping denoted by a list of entries: the last writer for a key
/// wins.
pub open spec fn map_of(entries: Seq<(Seq<char>, Seq<char>)>) -> Map<Seq<char>, Seq<char>>
    decreases entries.len(),
{
    if entries.len() == 0 {
        Map::empty()
    } else {
        map_of(entries.drop_last()).insert(entries.last().0, entries.last().1)
    }
}

/// The final variable set passed to the child process.
pub struct EnvVarMap {
    entries: Vec<(String, String)>,
}

impl View for EnvVarMap {
    type V = Map<Seq<char>, Seq<char>>;

    closed spec fn view(&self) -> Map<Seq<char>, Seq<char>> {
        map_of(self.entries.deep_view())
    }
}

impl EnvVarMap {
    /// Every key of the map carries the namespace prefix.
    pub open spec fn wf(&self) -> bool {
        forall|k: Seq<char>| self@.dom().contains(k) ==> #[trigger] prefix_at(k, 0, env_prefix())
    }

    /// The empty variable set.
    pub fn new() -> (r: Self)
        ensures
            r@ == Map::<Seq<char>, Seq<char>>::empty(),
            r.wf(),
    {
        let r = EnvVarMap { entries: Vec::new() };
        proof {
            assert(r.entries.deep_view() =~= Seq::<(Seq<char>, Seq<char>)>::empty());
        }
        r
    }

    /// Insert under a key that already carries the namespace prefix.
    pub fn insert_exact(&mut self, key: String, value: String)
        requires
            prefix_at(key@, 0, env_prefix()),
            old(self).wf(),
        ensures
            final(self)@ == old(self)@.insert(key@, value@),
            final(self).wf(),
    {
        let ghost before = self.entries.deep_view();
        self.entries.push((key, value));
        proof {
            let after = self.entries.deep_view();
            assert(after =~= before.push((key@, value@)));
            assert(after.drop_last() =~= before);
            assert(self@ == map_of(before).insert(key@, value@));
        }
    }

    /// Insert under the normalized form of `key`; a managed insert after a
    /// user insert of the same normalized key overwrites it.
    pub fn insert(&mut self, key: &str, value: String)
        requires
            old(self).wf(),
        ensures
            final(self)@ == old(self)@.insert(normalize_key(key@), value@),
            final(self).wf(),
    {
        let k = make_env_key(key);
        proof {
            lemma_normalized_prefixed(key@);
        }
        self.insert_exact(k, value);
    }

    /// The entries in insertion order, for handing to the process spawner;
    /// a later entry for the same key supersedes an earlier one.
    pub fn entries(&self) -> (r: &Vec<(String, String)>)
        ensures
            map_of(r.deep_view()) == self@,
    {
        &self.entries
    }

    /// Look a key up; the value of the last insert under that key.
    pub fn get(&self, key: &str) -> (r: Option<&String>)
        ensures
            match r {
                Some(v) => self@.contains_key(key@) && v@ == self@[key@],
                None => !self@.contains_key(key@),
            },
    {
        let ghost full = self.entries.deep_view();
        let mut i: usize = self.entries.len();
        proof {
            assert(full.take(i as int) =~= full);
        }
        while i > 0
            invariant
                0 <= i <= self.entries.len(),
                full == self.entries.deep_view(),
                self@.contains_key(key@) == map_of(full.take(i as int)).contains_key(key@),
                self@.contains_key(key@) ==> self@[key@] == map_of(full.take(i as int))[key@],
            decreases i,
        {
            i -= 1;
            proof {
                assert(full.take(i as int + 1).drop_last() =~= full.take(i as int));
                assert(full.take(i as int + 1).last() == full[i as int]);
            }
            if str_eq(self.entries[i].0.as_str(), key) {
                return Some(&self.entries[i].1);
            }
        }
        proof {
            assert(full.take(0) =~= Seq::<(Seq<char>, Seq<char>)>::empty());
        }
        None
    }
}

} // verus!
