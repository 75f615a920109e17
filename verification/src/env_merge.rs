//! Environment resolution for the sidecar process.
//!
//! The final environment is built by overlaying sources in increasing
//! precedence: the inherited process environment, then the login-shell
//! capture, then the override file, and last an explicitly forced PATH.
//! Keys and values are raw byte strings; on platforms whose environment
//! keys are case-insensitive, every key is uppercased before insertion so
//! differently-cased spellings collapse to one entry.
use vstd::prelude::*;
use vstd::string::StringSliceAdditionalSpecFns;

use crate::bytestr::bytes_eq;

verus! {

/// ASCII uppercase of one byte.
pub open spec fn upper_byte(b: u8) -> u8 {
    if ('a' as u8) <= b <= ('z' as u8) {
        (b - 32) as u8
    } else {
        b
    }
}

/// The normalized form of a key: uppercased byte-for-byte under
/// case-insensitive matching, untouched otherwise.
pub open spec fn norm_key(k: Seq<u8>, case_insensitive: bool) -> Seq<u8> {
    if case_insensitive {
        Seq::new(k.len(), |i: int| upper_byte(k[i]))
    } else {
        k
    }
}

/// The byte views of a sequence of key/value pairs.
pub open spec fn pairs_view(s: Seq<(Vec<u8>, Vec<u8>)>) -> Seq<(Seq<u8>, Seq<u8>)> {
    Seq::new(s.len(), |i: int| (s[i].0@, s[i].1@))
}

/// The mapping described by a list of entries, later entries overwriting
/// earlier ones.
pub open spec fn entries_map(s: Seq<(Seq<u8>, Seq<u8>)>) -> Map<Seq<u8>, Seq<u8>>
    decreases s.len(),
{
    if s.len() == 0 {
        Map::empty()
    } else {
        entries_map(s.drop_last()).insert(s.last().0, s.last().1)
    }
}

/// No two entries share a key.
pub open spec fn unique_keys(s: Seq<(Seq<u8>, Seq<u8>)>) -> bool {
    forall|i: int, j: int| 0 <= i < j < s.len() ==> s[i].0 != s[j].0
}

/// Overlaying `pairs` onto `m` in order, each key normalized first.
pub open spec fn apply_env_pairs(
    m: Map<Seq<u8>, Seq<u8>>,
    pairs: Seq<(Seq<u8>, Seq<u8>)>,
    case_insensitive: bool,
) -> Map<Seq<u8>, Seq<u8>>
    decreases pairs.len(),
{
    if pairs.len() == 0 {
        m
    } else {
        apply_env_pairs(m, pairs.drop_last(), case_insensitive).insert(
            norm_key(pairs.last().0, case_insensitive),
            pairs.last().1,
        )
    }
}

/// The key that a forced path override replaces.
pub open spec fn path_key() -> Seq<u8> {
    "PATH".spec_bytes()
}

/// The fully resolved sidecar environment: inherited, then login-shell,
/// then override-file entries, and a forced PATH above them all.
pub open spec fn spec_resolved_env(
    inherited: Seq<(Seq<u8>, Seq<u8>)>,
    login_shell: Seq<(Seq<u8>, Seq<u8>)>,
    desktop_file: Seq<(Seq<u8>, Seq<u8>)>,
    forced_path: Option<Seq<u8>>,
    case_insensitive: bool,
) -> Map<Seq<u8>, Seq<u8>> {
    let base = apply_env_pairs(
        apply_env_pairs(
            apply_env_pairs(Map::empty(), inherited, case_insensitive),
            login_shell,
            case_insensitive,
        ),
        desktop_file,
        case_insensitive,
    );
    match forced_path {
        Some(p) => base.insert(norm_key(path_key(), case_insensitive), p),
        None => base,
    }
}

/// The value of the last pair whose normalized key is `k`, if any: the one
/// that survives a merge of that source.
pub open spec fn last_value_for(
    pairs: Seq<(Seq<u8>, Seq<u8>)>,
    k: Seq<u8>,
    case_insensitive: bool,
) -> Option<Seq<u8>>
    decreases pairs.len(),
{
    if pairs.len() == 0 {
        None
    } else if norm_key(pairs.last().0, case_insensitive) == k {
        Some(pairs.last().1)
    } else {
        last_value_for(pairs.drop_last(), k, case_insensitive)
    }
}

proof fn lemma_entries_map_index(s: Seq<(Seq<u8>, Seq<u8>)>, i: int)
    requires
        unique_keys(s),
        0 <= i < s.len(),
    ensures
        entries_map(s).contains_key(s[i].0),
        entries_map(s)[s[i].0] == s[i].1,
    decreases s.len(),
{
    if i == s.len() - 1 {
    } else {
        assert(unique_keys(s.drop_last()));
        lemma_entries_map_index(s.drop_last(), i);
        assert(s.last().0 != s[i].0);
    }
}

proof fn lemma_entries_map_absent(s: Seq<(Seq<u8>, Seq<u8>)>, k: Seq<u8>)
    requires
        forall|j: int| 0 <= j < s.len() ==> s[j].0 != k,
    ensures
        !entries_map(s).contains_key(k),
    decreases s.len(),
{
    if s.len() > 0 {
        lemma_entries_map_absent(s.drop_last(), k);
    }
}

proof fn lemma_entries_map_len(s: Seq<(Seq<u8>, Seq<u8>)>)
    requires
        unique_keys(s),
    ensures
        entries_map(s).dom().finite(),
        entries_map(s).dom().len() == s.len(),
    decreases s.len(),
{
    if s.len() > 0 {
        assert(unique_keys(s.drop_last()));
        lemma_entries_map_len(s.drop_last());
        assert(forall|j: int| 0 <= j < s.drop_last().len() ==> s.drop_last()[j].0 != s.last().0);
        lemma_entries_map_absent(s.drop_last(), s.last().0);
    }
}

proof fn lemma_entries_map_update(s: Seq<(Seq<u8>, Seq<u8>)>, i: int, p: (Seq<u8>, Seq<u8>))
    requires
        unique_keys(s),
        0 <= i < s.len(),
        p.0 == s[i].0,
    ensures
        entries_map(s.update(i, p)) == entries_map(s).insert(p.0, p.1),
        unique_keys(s.update(i, p)),
    decreases s.len(),
{
    let su = s.update(i, p);
    assert(unique_keys(su));
    if i == s.len() - 1 {
        assert(su.drop_last() =~= s.drop_last());
        assert(su.last() == p);
        assert(entries_map(su) =~= entries_map(s).insert(p.0, p.1));
    } else {
        assert(su.drop_last() =~= s.drop_last().update(i, p));
        assert(su.last() == s.last());
        assert(unique_keys(s.drop_last()));
        lemma_entries_map_update(s.drop_last(), i, p);
        assert(s.last().0 != p.0);
        assert(entries_map(su) =~= entries_map(s).insert(p.0, p.1));
    }
}

/// Uppercases a key byte-for-byte when the platform compares environment
/// keys case-insensitively; otherwise copies it verbatim.
pub fn normalize_env_key(key: &[u8], case_insensitive: bool) -> (r: Vec<u8>)
    ensures
        r@ == norm_key(key@, case_insensitive),
{
    let klen: usize = key.len();
    let mut out: Vec<u8> = Vec::new();
    let mut i: usize = 0;
    while i < klen
        invariant
            0 <= i <= klen,
            klen == key@.len(),
            out@.len() == i,
            forall|j: int| 0 <= j < i ==> out@[j] == if case_insensitive {
                upper_byte(key@[j])
            } else {
                key@[j]
            },
        decreases klen - i,
    {
        let b = key[i];
        if case_insensitive && ('a' as u8) <= b && b <= ('z' as u8) {
            out.push(b - 32);
        } else {
            out.push(b);
        }
        i += 1;
    }
    proof {
        assert(out@ =~= norm_key(key@, case_insensitive));
    }
    out
}

fn clone_bytes(v: &Vec<u8>) -> (r: Vec<u8>)
    ensures
        r@ == v@,
{
    let r = v.clone();
    proof {
        assert forall|i: int| 0 <= i < v@.len() implies r@[i] == v@[i] by {
            assert(cloned::<u8>(v[i], r[i]));
        }
        assert(v@ =~= r@);
    }
    r
}

/// The merged environment: one surviving value per normalized key.
pub struct MergedEnvironment {
    entries: Vec<(Vec<u8>, Vec<u8>)>,
}

impl View for MergedEnvironment {
    type V = Map<Seq<u8>, Seq<u8>>;

    closed spec fn view(&self) -> Map<Seq<u8>, Seq<u8>> {
        entries_map(pairs_view(self.entries@))
    }
}

impl MergedEnvironment {
    /// Exactly one entry survives per key.
    pub closed spec fn wf(&self) -> bool {
        unique_keys(pairs_view(self.entries@))
    }

    pub fn new() -> (r: Self)
        ensures
            r.wf(),
            r@ == Map::<Seq<u8>, Seq<u8>>::empty(),
    {
        MergedEnvironment { entries: Vec::new() }
    }

    /// Inserts a normalized key, overwriting any entry already present for
    /// it.
    pub fn insert(&mut self, key: Vec<u8>, value: Vec<u8>)
        requires
            old(self).wf(),
        ensures
            final(self).wf(),
            final(self)@ == old(self)@.insert(key@, value@),
    {
        let n = self.entries.len();
        let ghost s = pairs_view(self.entries@);
        let mut idx: usize = 0;
        while idx < n
            invariant
                0 <= idx <= n,
                n == self.entries@.len(),
                s == pairs_view(self.entries@),
                unique_keys(s),
                self.wf(),
                self@ == entries_map(s),
                entries_map(s) == old(self)@,
                forall|j: int| 0 <= j < idx ==> s[j].0 != key@,
            decreases n - idx,
        {
            if bytes_eq(self.entries[idx].0.as_slice(), key.as_slice()) {
                self.entries[idx] = (key, value);
                proof {
                    assert(pairs_view(self.entries@) =~= s.update(idx as int, (key@, value@)));
                    lemma_entries_map_update(s, idx as int, (key@, value@));
                }
                return ;
            }
            idx += 1;
        }
        self.entries.push((key, value));
        proof {
            let s2 = pairs_view(self.entries@);
            assert(s2.drop_last() =~= s);
            assert(s2.last() == (key@, value@));
            assert forall|a: int, b: int| 0 <= a < b < s2.len() implies s2[a].0 != s2[b].0 by {
                assert(s2[a] == s[a]);
                if b < s2.len() - 1 {
                    assert(s2[b] == s[b]);
                } else {
                    assert(s2[b] == (key@, value@));
                }
            }
        }
    }

    /// The surviving value for a normalized key.
    pub fn get(&self, key: &[u8]) -> (r: Option<&Vec<u8>>)
        requires
            self.wf(),
        ensures
            match r {
                Some(v) => self@.contains_key(key@) && v@ == self@[key@],
                None => !self@.contains_key(key@),
            },
    {
        let n = self.entries.len();
        let ghost s = pairs_view(self.entries@);
        let mut idx: usize = 0;
        while idx < n
            invariant
                0 <= idx <= n,
                n == self.entries@.len(),
                s == pairs_view(self.entries@),
                unique_keys(s),
                self@ == entries_map(s),
                forall|j: int| 0 <= j < idx ==> s[j].0 != key@,
            decreases n - idx,
        {
            if bytes_eq(self.entries[idx].0.as_slice(), key) {
                proof {
                    lemma_entries_map_index(s, idx as int);
                }
                return Some(&self.entries[idx].1);
            }
            idx += 1;
        }
        proof {
            lemma_entries_map_absent(s, key@);
        }
        None
    }

    /// How many distinct keys survived the merge.
    pub fn len(&self) -> (n: usize)
        requires
            self.wf(),
        ensures
            n == self@.dom().len(),
    {
        proof {
            lemma_entries_map_len(pairs_view(self.entries@));
        }
        self.entries.len()
    }

    /// The surviving entries, for handing to the process spawner.
    pub fn pairs(&self) -> (r: &Vec<(Vec<u8>, Vec<u8>)>)
        requires
            self.wf(),
        ensures
            unique_keys(pairs_view(r@)),
            entries_map(pairs_view(r@)) == self@,
    {
        &self.entries
    }
}

/// Overlays one source onto the merged environment, normalizing each key;
/// later pairs of the same source overwrite earlier ones.
pub fn merge_env_pairs(
    dest: &mut MergedEnvironment,
    pairs: &Vec<(Vec<u8>, Vec<u8>)>,
    case_insensitive: bool,
)
    requires
        old(dest).wf(),
    ensures
        final(dest).wf(),
        final(dest)@ == apply_env_pairs(old(dest)@, pairs_view(pairs@), case_insensitive),
{
    let n = pairs.len();
    let ghost s = pairs_view(pairs@);
    let ghost m0 = dest@;
    let mut i: usize = 0;
    while i < n
        invariant
            0 <= i <= n,
            n == pairs@.len(),
            s == pairs_view(pairs@),
            dest.wf(),
            dest@ == apply_env_pairs(m0, s.take(i as int), case_insensitive),
        decreases n - i,
    {
        let key = clone_bytes(&pairs[i].0);
        let value = clone_bytes(&pairs[i].1);
        let nk = normalize_env_key(key.as_slice(), case_insensitive);
        dest.insert(nk, value);
        proof {
            assert(s.take(i + 1).drop_last() =~= s.take(i as int));
            assert(s.take(i + 1).last() == s[i as int]);
        }
        i += 1;
    }
    proof {
        assert(s.take(n as int) =~= s);
    }
}

/// Builds the sidecar environment from its four sources, applying the
/// merge precedence Inherited < LoginShell < FileOverride < ForcedPath.
pub fn build_sidecar_env(
    inherited: &Vec<(Vec<u8>, Vec<u8>)>,
    login_shell: &Vec<(Vec<u8>, Vec<u8>)>,
    desktop_file: &Vec<(Vec<u8>, Vec<u8>)>,
    forced_path: Option<Vec<u8>>,
    case_insensitive_keys: bool,
) -> (r: MergedEnvironment)
    ensures
        r.wf(),
        r@ == spec_resolved_env(
            pairs_view(inherited@),
            pairs_view(login_shell@),
            pairs_view(desktop_file@),
            forced_path.deep_view(),
            case_insensitive_keys,
        ),
{
    let ghost fp = forced_path.deep_view();
    let mut merged = MergedEnvironment::new();
    merge_env_pairs(&mut merged, inherited, case_insensitive_keys);
    merge_env_pairs(&mut merged, login_shell, case_insensitive_keys);
    merge_env_pairs(&mut merged, desktop_file, case_insensitive_keys);
    match forced_path {
        Some(path) => {
            proof {
                assert(path.deep_view() =~= path@);
                assert(fp == Some(path@));
            }
            let key = normalize_env_key("PATH".as_bytes(), case_insensitive_keys);
            proof {
                assert(key@ == norm_key(path_key(), case_insensitive_keys));
            }
            merged.insert(key, path);
        },
        None => {
            proof {
                assert(fp is None);
            }
        },
    }
    merged
}

proof fn lemma_norm_key_idempotent(k: Seq<u8>)
    ensures
        norm_key(norm_key(k, true), true) == norm_key(k, true),
{
    assert(norm_key(norm_key(k, true), true) =~= norm_key(k, true));
}

proof fn lemma_apply_env_pairs_normalized(
    m: Map<Seq<u8>, Seq<u8>>,
    pairs: Seq<(Seq<u8>, Seq<u8>)>,
    k: Seq<u8>,
)
    requires
        m.contains_key(k) ==> k == norm_key(k, true),
    ensures
        apply_env_pairs(m, pairs, true).contains_key(k) ==> k == norm_key(k, true),
    decreases pairs.len(),
{
    if pairs.len() > 0 {
        lemma_apply_env_pairs_normalized(m, pairs.drop_last(), k);
        if k == norm_key(pairs.last().0, true) {
            lemma_norm_key_idempotent(pairs.last().0);
        }
    }
}

/// Law: under case-insensitive matching, every key that survives the
/// merge is already in its normalized, uppercased form — differently
/// cased spellings of one name collapse to a single entry rather than
/// surviving side by side.
pub proof fn lemma_case_insensitive_keys_normalized(
    inherited: Seq<(Seq<u8>, Seq<u8>)>,
    login_shell: Seq<(Seq<u8>, Seq<u8>)>,
    desktop_file: Seq<(Seq<u8>, Seq<u8>)>,
    forced_path: Option<Seq<u8>>,
    k: Seq<u8>,
)
    ensures
        spec_resolved_env(inherited, login_shell, desktop_file, forced_path, true).contains_key(k)
            ==> k == norm_key(k, true),
{
    let m1 = apply_env_pairs(Map::empty(), inherited, true);
    let m2 = apply_env_pairs(m1, login_shell, true);
    lemma_apply_env_pairs_normalized(Map::empty(), inherited, k);
    lemma_apply_env_pairs_normalized(m1, login_shell, k);
    lemma_apply_env_pairs_normalized(m2, desktop_file, k);
    if forced_path is Some && k == norm_key(path_key(), true) {
        lemma_norm_key_idempotent(path_key());
    }
}

proof fn lemma_apply_env_pairs_at(
    m: Map<Seq<u8>, Seq<u8>>,
    pairs: Seq<(Seq<u8>, Seq<u8>)>,
    case_insensitive: bool,
    k: Seq<u8>,
)
    ensures
        apply_env_pairs(m, pairs, case_insensitive).contains_key(k) <==> (m.contains_key(k)
            || last_value_for(pairs, k, case_insensitive) is Some),
        match last_value_for(pairs, k, case_insensitive) {
            Some(v) => apply_env_pairs(m, pairs, case_insensitive).contains_key(k)
                && apply_env_pairs(m, pairs, case_insensitive)[k] == v,
            None => m.contains_key(k) ==> apply_env_pairs(m, pairs, case_insensitive)[k] == m[k],
        },
    decreases pairs.len(),
{
    if pairs.len() > 0 {
        lemma_apply_env_pairs_at(m, pairs.drop_last(), case_insensitive, k);
    }
}

/// Law: merge precedence. For any key `k` in normalized form, the resolved
/// environment holds the forced path when one is configured and `k` is the
/// PATH key; otherwise the surviving override-file value for `k`; otherwise
/// the surviving login-shell value; otherwise the surviving inherited
/// value; and a key no source mentions is absent. So for any colliding key,
/// ForcedPath beats FileOverride beats LoginShell beats Inherited.
pub proof fn lemma_resolve_precedence(
    inherited: Seq<(Seq<u8>, Seq<u8>)>,
    login_shell: Seq<(Seq<u8>, Seq<u8>)>,
    desktop_file: Seq<(Seq<u8>, Seq<u8>)>,
    forced_path: Option<Seq<u8>>,
    case_insensitive: bool,
    k: Seq<u8>,
)
    ensures
        ({
            let m = spec_resolved_env(
                inherited,
                login_shell,
                desktop_file,
                forced_path,
                case_insensitive,
            );
            &&& (match forced_path {
                Some(p) => k == norm_key(path_key(), case_insensitive) ==> m.contains_key(k)
                    && m[k] == p,
                None => true,
            })
            &&& ((forced_path is None || k != norm_key(path_key(), case_insensitive))
                ==> match last_value_for(desktop_file, k, case_insensitive) {
                Some(v) => m.contains_key(k) && m[k] == v,
                None => match last_value_for(login_shell, k, case_insensitive) {
                    Some(v) => m.contains_key(k) && m[k] == v,
                    None => match last_value_for(inherited, k, case_insensitive) {
                        Some(v) => m.contains_key(k) && m[k] == v,
                        None => !m.contains_key(k),
                    },
                },
            })
        }),
{
    let m1 = apply_env_pairs(Map::empty(), inherited, case_insensitive);
    let m2 = apply_env_pairs(m1, login_shell, case_insensitive);
    let m3 = apply_env_pairs(m2, desktop_file, case_insensitive);
    lemma_apply_env_pairs_at(Map::empty(), inherited, case_insensitive, k);
    lemma_apply_env_pairs_at(m1, login_shell, case_insensitive, k);
    lemma_apply_env_pairs_at(m2, desktop_file, case_insensitive, k);
}

} // verus!
