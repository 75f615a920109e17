//! The manual override file.
//!
//! An optional plain-text file under the user's home directory supplies
//! `KEY=VALUE` lines that override individual environment entries. Blank
//! lines and `#` comments are ignored; keys and values are trimmed; lines
//! without `=` or with an empty key are discarded. This module parses that
//! format and resolves the home directory from the platform's lookup
//! variables.
use vstd::prelude::*;
use vstd::string::StringSliceAdditionalSpecFns;

use crate::bytestr::find_byte;
use crate::bytestr::find_byte_in;
use crate::env_merge::pairs_view;
use crate::login_shell::is_blank_byte;

verus! {

/// Number of leading whitespace bytes.
pub open spec fn trim_start_len(s: Seq<u8>) -> int
    decreases s.len(),
{
    if s.len() == 0 || !is_blank_byte(s[0]) {
        0
    } else {
        1 + trim_start_len(s.drop_first())
    }
}

/// Number of trailing whitespace bytes.
pub open spec fn trim_end_len(s: Seq<u8>) -> int
    decreases s.len(),
{
    if s.len() == 0 || !is_blank_byte(s.last()) {
        0
    } else {
        1 + trim_end_len(s.drop_last())
    }
}

/// `s` with leading and trailing whitespace removed.
pub open spec fn trimmed(s: Seq<u8>) -> Seq<u8> {
    let rest = s.skip(trim_start_len(s));
    rest.take(rest.len() - trim_end_len(rest))
}

proof fn lemma_trim_start(s: Seq<u8>, m: int)
    requires
        0 <= m <= s.len(),
        forall|k: int| 0 <= k < m ==> is_blank_byte(s[k]),
        m == s.len() || !is_blank_byte(s[m]),
    ensures
        trim_start_len(s) == m,
    decreases s.len(),
{
    if s.len() == 0 {
    } else if !is_blank_byte(s[0]) {
        assert(m == 0);
    } else {
        assert(m >= 1);
        let t = s.drop_first();
        assert(forall|k: int| 0 <= k < m - 1 ==> t[k] == s[k + 1]);
        if m - 1 < t.len() {
            assert(t[m - 1] == s[m]);
        }
        lemma_trim_start(t, m - 1);
    }
}

proof fn lemma_trim_end(s: Seq<u8>, m: int)
    requires
        0 <= m <= s.len(),
        forall|k: int| s.len() - m <= k < s.len() ==> is_blank_byte(s[k]),
        m == s.len() || !is_blank_byte(s[s.len() - m - 1]),
    ensures
        trim_end_len(s) == m,
    decreases s.len(),
{
    if s.len() == 0 {
    } else if !is_blank_byte(s.last()) {
        assert(m == 0);
    } else {
        assert(m >= 1);
        let t = s.drop_last();
        assert(forall|k: int| 0 <= k < t.len() ==> t[k] == s[k]);
        lemma_trim_end(t, m - 1);
    }
}

fn blank_byte(b: u8) -> (r: bool)
    ensures
        r == is_blank_byte(b),
{
    b == 32 || b == 9 || b == 10 || b == 13 || b == 11 || b == 12
}

/// Bounds of the trimmed interior of `content[from..to]`.
fn trim_range(content: &[u8], from: usize, to: usize) -> (r: (usize, usize))
    requires
        from <= to <= content@.len(),
    ensures
        from <= r.0 <= r.1 <= to,
        content@.subrange(r.0 as int, r.1 as int) == trimmed(
            content@.subrange(from as int, to as int),
        ),
{
    let ghost s = content@.subrange(from as int, to as int);
    let mut a: usize = from;
    while a < to && blank_byte(content[a])
        invariant
            from <= a <= to <= content@.len(),
            forall|j: int| from <= j < a ==> is_blank_byte(content@[j]),
        decreases to - a,
    {
        a += 1;
    }
    proof {
        assert(forall|k: int| 0 <= k < s.len() ==> s[k] == content@[from + k]);
        lemma_trim_start(s, a - from);
    }
    let mut b: usize = to;
    while b > a && blank_byte(content[b - 1])
        invariant
            from <= a <= b <= to <= content@.len(),
            forall|j: int| b <= j < to ==> is_blank_byte(content@[j]),
        decreases b,
    {
        b -= 1;
    }
    proof {
        let rest = s.skip(a - from);
        assert(forall|k: int| 0 <= k < rest.len() ==> rest[k] == content@[a + k]);
        lemma_trim_end(rest, to - b);
        assert(content@.subrange(a as int, b as int) =~= trimmed(s));
    }
    (a, b)
}

/// The entry contributed by one line: none for blank lines, comments,
/// lines without `=`, and lines with an empty key; otherwise the trimmed
/// key and trimmed value.
pub open spec fn entry_of_line(line: Seq<u8>) -> Seq<(Seq<u8>, Seq<u8>)> {
    let t = trimmed(line);
    if t.len() == 0 || t[0] == '#' as u8 {
        seq![]
    } else {
        match find_byte(t, '=' as u8) {
            None => seq![],
            Some(eq) => {
                let key = trimmed(t.take(eq));
                let value = trimmed(t.skip(eq + 1));
                if key.len() == 0 {
                    seq![]
                } else {
                    seq![(key, value)]
                }
            },
        }
    }
}

/// All entries of an override file, in line order.
pub open spec fn env_file_entries(s: Seq<u8>) -> Seq<(Seq<u8>, Seq<u8>)>
    decreases s.len(),
    via env_file_entries_decreases
{
    if s.len() == 0 {
        seq![]
    } else {
        match find_byte(s, '\n' as u8) {
            None => entry_of_line(s),
            Some(nl) => entry_of_line(s.take(nl)) + env_file_entries(s.skip(nl + 1)),
        }
    }
}

#[via_fn]
proof fn env_file_entries_decreases(s: Seq<u8>) {
    crate::bytestr::lemma_find_byte(s, '\n' as u8);
}

/// Appends the entry of the line `content[ls..le]`, if it has one.
fn push_line_entry(out: &mut Vec<(Vec<u8>, Vec<u8>)>, content: &[u8], ls: usize, le: usize)
    requires
        ls <= le <= content@.len(),
    ensures
        pairs_view(final(out)@) == pairs_view(old(out)@) + entry_of_line(
            content@.subrange(ls as int, le as int),
        ),
{
    let ghost line = content@.subrange(ls as int, le as int);
    let ghost t = trimmed(line);
    let (a, b) = trim_range(content, ls, le);
    proof {
        assert(t == content@.subrange(a as int, b as int));
    }
    if a == b {
        proof {
            assert(pairs_view(out@) + entry_of_line(line) =~= pairs_view(out@));
        }
        return ;
    }
    if content[a] == '#' as u8 {
        proof {
            assert(t[0] == '#' as u8);
            assert(pairs_view(out@) + entry_of_line(line) =~= pairs_view(out@));
        }
        return ;
    }
    match find_byte_in(content, '=' as u8, a, b) {
        None => {
            proof {
                assert(pairs_view(out@) + entry_of_line(line) =~= pairs_view(out@));
            }
        },
        Some(eq) => {
            proof {
                assert(find_byte(t, '=' as u8) == Some(eq - a as int));
            }
            let (ka, kb) = trim_range(content, a, eq);
            proof {
                assert(content@.subrange(a as int, eq as int) =~= t.take(eq - a as int));
                assert(content@.subrange(ka as int, kb as int) == trimmed(t.take(eq - a as int)));
            }
            if ka == kb {
                proof {
                    assert(trimmed(t.take(eq - a as int)).len() == 0);
                    assert(pairs_view(out@) + entry_of_line(line) =~= pairs_view(out@));
                }
                return ;
            }
            let (va, vb) = trim_range(content, eq + 1, b);
            proof {
                assert(content@.subrange(eq + 1 as int, b as int) =~= t.skip(eq - a + 1));
                assert(content@.subrange(va as int, vb as int) == trimmed(t.skip(eq - a + 1)));
            }
            let key = vstd::slice::slice_to_vec(&content[ka..kb]);
            let value = vstd::slice::slice_to_vec(&content[va..vb]);
            let ghost before = pairs_view(out@);
            out.push((key, value));
            proof {
                assert(pairs_view(out@) =~= before + seq![(key@, value@)]);
                assert(pairs_view(out@) =~= before + entry_of_line(line));
            }
        },
    }
}

/// Parses the override file's text: `KEY=VALUE` per line, `#` comments
/// and blank lines ignored, keys and values trimmed, lines without `=` or
/// without a key discarded.
pub fn parse_desktop_env_content(content: &str) -> (r: Vec<(Vec<u8>, Vec<u8>)>)
    ensures
        pairs_view(r@) == env_file_entries(content.spec_bytes()),
{
    let bytes: &[u8] = content.as_bytes();
    let clen: usize = bytes.len();
    let mut out: Vec<(Vec<u8>, Vec<u8>)> = Vec::new();
    let mut start: usize = 0;
    proof {
        assert(pairs_view(out@) + env_file_entries(bytes@) =~= env_file_entries(bytes@));
        assert(bytes@.skip(0) =~= bytes@);
    }
    while start < clen
        invariant
            0 <= start <= clen,
            clen == bytes@.len(),
            bytes@ == content.spec_bytes(),
            env_file_entries(bytes@) == pairs_view(out@) + env_file_entries(
                bytes@.skip(start as int),
            ),
        decreases clen - start,
    {
        let ghost rest = bytes@.skip(start as int);
        let ghost before = pairs_view(out@);
        match find_byte_in(bytes, '\n' as u8, start, clen) {
            Some(nl) => {
                proof {
                    assert(bytes@.subrange(start as int, clen as int) =~= rest);
                    assert(find_byte(rest, '\n' as u8) == Some(nl - start as int));
                    assert(rest.take(nl - start as int) =~= bytes@.subrange(
                        start as int,
                        nl as int,
                    ));
                }
                push_line_entry(&mut out, bytes, start, nl);
                proof {
                    assert(rest.skip(nl - start + 1) =~= bytes@.skip(nl + 1));
                    assert(env_file_entries(rest) == entry_of_line(
                        bytes@.subrange(start as int, nl as int),
                    ) + env_file_entries(bytes@.skip(nl + 1)));
                    assert(pairs_view(out@) + env_file_entries(bytes@.skip(nl + 1)) =~= before
                        + env_file_entries(rest));
                }
                start = nl + 1;
            },
            None => {
                proof {
                    assert(bytes@.subrange(start as int, clen as int) =~= rest);
                    assert(find_byte(rest, '\n' as u8) is None);
                    assert(env_file_entries(rest) == entry_of_line(rest));
                }
                push_line_entry(&mut out, bytes, start, clen);
                proof {
                    assert(bytes@.skip(clen as int) =~= Seq::<u8>::empty());
                    assert(pairs_view(out@) + env_file_entries(bytes@.skip(clen as int)) =~= before
                        + env_file_entries(rest));
                }
                start = clen;
            },
        }
    }
    proof {
        assert(bytes@.skip(start as int) =~= Seq::<u8>::empty());
        assert(pairs_view(out@) =~= env_file_entries(bytes@));
    }
    out
}

/// A lookup result that counts only when it is set and non-empty.
pub open spec fn nonempty(v: Option<Seq<u8>>) -> Option<Seq<u8>> {
    match v {
        Some(s) => if s.len() > 0 {
            Some(s)
        } else {
            None
        },
        None => None,
    }
}

/// The home directory resolved from the platform's variables: the profile
/// directory first on Windows, the home variable first elsewhere, and the
/// drive+path pair as a last resort; empty values count as unset.
pub open spec fn spec_home_dir(
    home: Option<Seq<u8>>,
    userprofile: Option<Seq<u8>>,
    homedrive: Option<Seq<u8>>,
    homepath: Option<Seq<u8>>,
    prefer_userprofile: bool,
) -> Option<Seq<u8>> {
    let first = if prefer_userprofile {
        nonempty(userprofile)
    } else {
        nonempty(home)
    };
    let second = if prefer_userprofile {
        nonempty(home)
    } else {
        nonempty(userprofile)
    };
    match first {
        Some(p) => Some(p),
        None => match second {
            Some(p) => Some(p),
            None => match (nonempty(homedrive), nonempty(homepath)) {
                (Some(d), Some(p)) => Some(d + p),
                _ => None,
            },
        },
    }
}

fn filter_nonempty(v: Option<Vec<u8>>) -> (r: Option<Vec<u8>>)
    ensures
        r.deep_view() == nonempty(v.deep_view()),
        r matches Some(s) ==> v == Some(s),
{
    match v {
        Some(s) => {
            proof {
                assert(s.deep_view() =~= s@);
            }
            if s.len() > 0 {
                Some(s)
            } else {
                None
            }
        },
        None => None,
    }
}

/// Resolves the home directory, used only to locate the override file.
/// The caller hands in the raw values of the platform's home variables.
pub fn resolve_home_dir_from_lookup(
    home: Option<Vec<u8>>,
    userprofile: Option<Vec<u8>>,
    homedrive: Option<Vec<u8>>,
    homepath: Option<Vec<u8>>,
    prefer_userprofile: bool,
) -> (r: Option<Vec<u8>>)
    ensures
        r.deep_view() == spec_home_dir(
            home.deep_view(),
            userprofile.deep_view(),
            homedrive.deep_view(),
            homepath.deep_view(),
            prefer_userprofile,
        ),
{
    let (first, second) = if prefer_userprofile {
        (filter_nonempty(userprofile), filter_nonempty(home))
    } else {
        (filter_nonempty(home), filter_nonempty(userprofile))
    };
    if let Some(p) = first {
        proof {
            assert(p.deep_view() =~= p@);
        }
        return Some(p);
    }
    if let Some(p) = second {
        proof {
            assert(p.deep_view() =~= p@);
        }
        return Some(p);
    }
    let drive = filter_nonempty(homedrive);
    let path = filter_nonempty(homepath);
    match (drive, path) {
        (Some(mut d), Some(mut p)) => {
            let ghost dv = d@;
            let ghost pv = p@;
            d.append(&mut p);
            proof {
                assert(d@ == dv + pv);
                assert(d.deep_view() =~= d@);
            }
            Some(d)
        },
        _ => None,
    }
}

} // verus!
