//! Connection-string parsing: the archive's account name and access key
//! are read out of a semicolon-separated `Key=Value` connection string; a
//! string missing either leaves the archive unconfigured.

use vstd::prelude::*;
use crate::strutil::str_has_prefix;

verus! {

/// The first position of `c` in `s`, or minus one.
pub open spec fn spec_find_char(s: Seq<char>, c: char) -> int
    decreases s.len(),
{
    if s.len() == 0 {
        -1
    } else if s[0] == c {
        0
    } else {
        let r = spec_find_char(s.drop_first(), c);
        if r < 0 {
            -1
        } else {
            r + 1
        }
    }
}

/// The semicolon-separated segments of a connection string.
pub open spec fn spec_segments(s: Seq<char>) -> Seq<Seq<char>>
    decreases s.len(),
{
    let i = spec_find_char(s, ';');
    if !(0 <= i < s.len()) {
        seq![s]
    } else {
        seq![s.subrange(0, i)] + spec_segments(s.subrange(i + 1, s.len() as int))
    }
}

/// The remainder of the first segment carrying the prefix, if any.
pub open spec fn spec_first_with_prefix(segs: Seq<Seq<char>>, prefix: Seq<char>) -> Option<
    Seq<char>,
>
    decreases segs.len(),
{
    if segs.len() == 0 {
        None
    } else if prefix.is_prefix_of(segs[0]) {
        Some(segs[0].skip(prefix.len() as int))
    } else {
        spec_first_with_prefix(segs.drop_first(), prefix)
    }
}

/// The value of a `Key=`-prefixed field of a connection string.
pub open spec fn spec_conn_field(s: Seq<char>, prefix: Seq<char>) -> Option<Seq<char>> {
    spec_first_with_prefix(spec_segments(s), prefix)
}

proof fn lemma_find_char_at(s: Seq<char>, c: char, k: int)
    requires
        0 <= k < s.len(),
        s[k] == c,
        forall|j: int| 0 <= j < k ==> s[j] != c,
    ensures
        spec_find_char(s, c) == k,
    decreases k,
{
    if k > 0 {
        assert(s.drop_first()[k - 1] == s[k]);
        assert(forall|j: int| 0 <= j < k - 1 ==> s.drop_first()[j] == s[j + 1]);
        lemma_find_char_at(s.drop_first(), c, k - 1);
    }
}

proof fn lemma_find_char_none(s: Seq<char>, c: char)
    requires
        forall|j: int| 0 <= j < s.len() ==> s[j] != c,
    ensures
        spec_find_char(s, c) == -1,
    decreases s.len(),
{
    if s.len() > 0 {
        assert(forall|j: int| 0 <= j < s.drop_first().len() ==> s.drop_first()[j] == s[j + 1]);
        lemma_find_char_none(s.drop_first(), c);
    }
}

fn find_char_from(s: &str, from: usize, c: char) -> (r: Option<usize>)
    requires
        from <= s@.len(),
    ensures
        match r {
            Some(k) => from <= k < s@.len() && s@[k as int] == c && (forall|j: int|
                from <= j < k ==> s@[j] != c),
            None => forall|j: int| from <= j < s@.len() ==> s@[j] != c,
        },
{
    let n = s.unicode_len();
    let mut i: usize = from;
    while i < n
        invariant
            n == s@.len(),
            from <= i <= n,
            forall|j: int| from <= j < i ==> s@[j] != c,
        decreases n - i,
    {
        if s.get_char(i) == c {
            return Some(i);
        }
        i += 1;
    }
    None
}

/// Reads the value of a `Key=`-prefixed field out of a semicolon-separated
/// connection string: the remainder of the first segment carrying the
/// prefix.
pub fn conn_str_field(s: &str, prefix: &str) -> (r: Option<String>)
    ensures
        match r {
            Some(v) => spec_conn_field(s@, prefix@) == Some(v@),
            None => spec_conn_field(s@, prefix@) is None,
        },
{
    let n = s.unicode_len();
    let plen = prefix.unicode_len();
    let mut start: usize = 0;
    proof {
        assert(s@.subrange(0, n as int) =~= s@);
    }
    loop
        invariant
            n == s@.len(),
            plen == prefix@.len(),
            start <= n,
            spec_conn_field(s@, prefix@) == spec_first_with_prefix(
                spec_segments(s@.subrange(start as int, n as int)),
                prefix@,
            ),
        decreases n - start,
    {
        let ghost suffix = s@.subrange(start as int, n as int);
        let seg_end: usize = match find_char_from(s, start, ';') {
            Some(k) => k,
            None => n,
        };
        proof {
            assert(forall|j: int| 0 <= j < suffix.len() ==> suffix[j] == s@[start + j]);
            if seg_end < n {
                lemma_find_char_at(suffix, ';', seg_end - start);
            } else {
                lemma_find_char_none(suffix, ';');
            }
            assert(suffix.subrange(0, seg_end - start) =~= s@.subrange(
                start as int,
                seg_end as int,
            ));
        }
        let segment = s.substring_char(start, seg_end);
        if str_has_prefix(segment, prefix) {
            let value = segment.substring_char(plen, seg_end - start);
            proof {
                assert(segment@.skip(plen as int) =~= segment@.subrange(
                    plen as int,
                    segment@.len() as int,
                ));
                if seg_end < n {
                    assert(spec_segments(suffix) == seq![segment@] + spec_segments(
                        suffix.subrange(seg_end - start + 1, suffix.len() as int),
                    ));
                } else {
                    assert(spec_segments(suffix) == seq![segment@]);
                }
                assert(spec_segments(suffix)[0] == segment@);
            }
            return Some(value.to_owned());
        }
        if seg_end == n {
            proof {
                assert(segment@ =~= suffix);
                assert(spec_segments(suffix) == seq![segment@]);
                assert(!prefix@.is_prefix_of(segment@));
                assert(seq![segment@].drop_first() =~= Seq::<Seq<char>>::empty());
                assert(spec_first_with_prefix(Seq::<Seq<char>>::empty(), prefix@) is None);
                assert(spec_first_with_prefix(seq![segment@], prefix@) is None);
            }
            return None;
        }
        proof {
            let next = suffix.subrange(seg_end - start + 1, suffix.len() as int);
            assert(spec_segments(suffix) == seq![segment@] + spec_segments(next));
            assert((seq![segment@] + spec_segments(next)).drop_first() =~= spec_segments(next));
            assert(next =~= s@.subrange(seg_end + 1 as int, n as int));
        }
        start = seg_end + 1;
    }
}

/// Extracts the archive's account name and access key from a connection
/// string; a string missing either, or empty, configures no archive.
pub fn parse_storage_credentials(conn_str: &str) -> (r: Option<(String, String)>)
    ensures
        match r {
            Some((account, key)) => {
                &&& spec_conn_field(conn_str@, "AccountName="@) == Some(account@)
                &&& spec_conn_field(conn_str@, "AccountKey="@) == Some(key@)
                &&& account@.len() > 0
                &&& key@.len() > 0
            },
            None => conn_str@.len() == 0 || (match spec_conn_field(conn_str@, "AccountName="@) {
                Some(a) => a.len() == 0,
                None => true,
            }) || (match spec_conn_field(conn_str@, "AccountKey="@) {
                Some(k) => k.len() == 0,
                None => true,
            }),
        },
{
    if s_is_empty(conn_str) {
        return None;
    }
    let account = match conn_str_field(conn_str, "AccountName=") {
        Some(a) => a,
        None => {
            return None;
        },
    };
    let key = match conn_str_field(conn_str, "AccountKey=") {
        Some(k) => k,
        None => {
            return None;
        },
    };
    if s_is_empty(account.as_str()) || s_is_empty(key.as_str()) {
        return None;
    }
    Some((account, key))
}

fn s_is_empty(s: &str) -> (r: bool)
    ensures
        r == (s@.len() == 0),
{
    s.unicode_len() == 0
}

} // verus!
