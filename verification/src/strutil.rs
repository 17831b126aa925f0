//! Verified helpers for working with strings as sequences of characters:
//! equality, prefix tests, searching, trimming and splitting.

use vstd::prelude::*;
use vstd::string::StrSliceExecFns;
use vstd::string::StringExecFns;

verus! {

/// The whitespace characters recognised when trimming directive fields.
pub open spec fn is_space_char(c: char) -> bool {
    c == ' ' || c == '\t' || c == '\r' || c == '\n'
}

/// Exec mirror of [`is_space_char`].
pub fn is_space(c: char) -> (r: bool)
    ensures
        r == is_space_char(c),
{
    c == ' ' || c == '\t' || c == '\r' || c == '\n'
}

/// Character-wise equality of two string slices.
pub fn str_eq(a: &str, b: &str) -> (r: bool)
    ensures
        r == (a@ == b@),
{
    let alen = a.unicode_len();
    let blen = b.unicode_len();
    if alen != blen {
        proof {
            if a@ == b@ {
                assert(a@.len() == b@.len());
            }
        }
        return false;
    }
    let mut i: usize = 0;
    while i < alen
        invariant
            alen == a@.len(),
            alen == b@.len(),
            i <= alen,
            forall|j: int| 0 <= j < i ==> a@[j] == b@[j],
        decreases alen - i,
    {
        if a.get_char(i) != b.get_char(i) {
            proof {
                if a@ == b@ {
                    assert(a@[i as int] == b@[i as int]);
                }
            }
            return false;
        }
        i = i + 1;
    }
    proof {
        assert(a@ =~= b@);
    }
    true
}

/// `p` is a prefix of `s`.
pub open spec fn spec_has_prefix(s: Seq<char>, p: Seq<char>) -> bool {
    p.len() <= s.len() && s.subrange(0, p.len() as int) == p
}

/// Exec prefix test, exact against [`spec_has_prefix`].
pub fn has_prefix(s: &str, p: &str) -> (r: bool)
    ensures
        r == spec_has_prefix(s@, p@),
{
    let slen = s.unicode_len();
    let plen = p.unicode_len();
    if plen > slen {
        return false;
    }
    let mut i: usize = 0;
    while i < plen
        invariant
            slen == s@.len(),
            plen == p@.len(),
            plen <= slen,
            i <= plen,
            forall|j: int| 0 <= j < i ==> s@[j] == p@[j],
        decreases plen - i,
    {
        if s.get_char(i) != p.get_char(i) {
            proof {
                if spec_has_prefix(s@, p@) {
                    assert(s@.subrange(0, p@.len() as int)[i as int] == s@[i as int]);
                }
            }
            return false;
        }
        i = i + 1;
    }
    proof {
        assert(s@.subrange(0, p@.len() as int) =~= p@);
    }
    true
}

/// First position of `c` in `s` at or after `from`.
pub fn find_char_from(s: &str, c: char, from: usize) -> (r: Option<usize>)
    requires
        from <= s@.len(),
    ensures
        match r {
            Some(i) => from <= i < s@.len() && s@[i as int] == c && forall|j: int|
                from <= j < i ==> s@[j] != c,
            None => forall|j: int| from <= j < s@.len() ==> s@[j] != c,
        },
{
    let len = s.unicode_len();
    let mut i: usize = from;
    while i < len
        invariant
            len == s@.len(),
            from <= i <= len,
            forall|j: int| from <= j < i ==> s@[j] != c,
        decreases len - i,
    {
        if s.get_char(i) == c {
            return Some(i);
        }
        i = i + 1;
    }
    None
}

/// Owned copy of the character range `[from, to)` of `s`.
pub fn sub_string(s: &str, from: usize, to: usize) -> (r: String)
    requires
        from <= to <= s@.len(),
    ensures
        r@ == s@.subrange(from as int, to as int),
{
    s.substring_char(from, to).to_owned()
}

/// `s` with leading space characters removed.
pub open spec fn trim_start_spec(s: Seq<char>) -> Seq<char>
    decreases s.len(),
{
    if s.len() > 0 && is_space_char(s[0]) {
        trim_start_spec(s.drop_first())
    } else {
        s
    }
}

/// `s` with trailing space characters removed.
pub open spec fn trim_end_spec(s: Seq<char>) -> Seq<char>
    decreases s.len(),
{
    if s.len() > 0 && is_space_char(s.last()) {
        trim_end_spec(s.drop_last())
    } else {
        s
    }
}

/// `s` with leading and trailing space characters removed.
pub open spec fn trim_spec(s: Seq<char>) -> Seq<char> {
    trim_end_spec(trim_start_spec(s))
}

proof fn lemma_trim_start_at(s: Seq<char>, i: int)
    requires
        0 <= i <= s.len(),
        forall|j: int| 0 <= j < i ==> is_space_char(s[j]),
        i < s.len() ==> !is_space_char(s[i]),
    ensures
        trim_start_spec(s) == s.subrange(i, s.len() as int),
    decreases i,
{
    if i == 0 {
        if s.len() > 0 && is_space_char(s[0]) {
            assert(false);
        }
        assert(s.subrange(0, s.len() as int) =~= s);
    } else {
        assert(is_space_char(s[0]));
        lemma_trim_start_at(s.drop_first(), i - 1);
        assert(s.drop_first().subrange(i - 1, s.drop_first().len() as int) =~= s.subrange(
            i,
            s.len() as int,
        ));
    }
}

proof fn lemma_trim_end_at(s: Seq<char>, i: int)
    requires
        0 <= i <= s.len(),
        forall|j: int| i <= j < s.len() ==> is_space_char(s[j]),
        i > 0 ==> !is_space_char(s[i - 1]),
    ensures
        trim_end_spec(s) == s.subrange(0, i),
    decreases s.len() - i,
{
    if i == s.len() {
        if s.len() > 0 && is_space_char(s.last()) {
            assert(false);
        }
        assert(s.subrange(0, s.len() as int) =~= s);
    } else {
        assert(is_space_char(s.last()));
        lemma_trim_end_at(s.drop_last(), i);
        assert(s.drop_last().subrange(0, i) =~= s.subrange(0, i));
    }
}

/// Owned copy of `s` with surrounding space characters removed.
pub fn trim_of(s: &str) -> (r: String)
    ensures
        r@ == trim_spec(s@),
{
    let len = s.unicode_len();
    let mut start: usize = 0;
    while start < len && is_space(s.get_char(start))
        invariant
            len == s@.len(),
            start <= len,
            forall|j: int| 0 <= j < start ==> is_space_char(s@[j]),
        decreases len - start,
    {
        start = start + 1;
    }
    proof {
        lemma_trim_start_at(s@, start as int);
    }
    let mut end: usize = len;
    while end > start && is_space(s.get_char(end - 1))
        invariant
            len == s@.len(),
            start <= end <= len,
            forall|j: int| end <= j < len ==> is_space_char(s@[j]),
        decreases end,
    {
        end = end - 1;
    }
    let r = sub_string(s, start, end);
    proof {
        let t = s@.subrange(start as int, len as int);
        lemma_trim_end_at(t, end - start);
        assert(t.subrange(0, end - start) =~= s@.subrange(start as int, end as int));
    }
    r
}

/// First position at or after `from` where `pat` occurs in `s`.
pub open spec fn matches_at(s: Seq<char>, pat: Seq<char>, k: int) -> bool {
    0 <= k && k + pat.len() <= s.len() && s.subrange(k, k + pat.len()) == pat
}

/// Exec search for the first occurrence of `pat` in `s` at or after `from`.
pub fn find_sub_from(s: &str, pat: &str, from: usize) -> (r: Option<usize>)
    requires
        from <= s@.len(),
        pat@.len() > 0,
    ensures
        match r {
            Some(i) => from <= i && matches_at(s@, pat@, i as int) && forall|j: int|
                from <= j < i ==> !matches_at(s@, pat@, j),
            None => forall|j: int| from <= j < s@.len() ==> !matches_at(s@, pat@, j),
        },
{
    let slen = s.unicode_len();
    let plen = pat.unicode_len();
    if plen > slen {
        return None;
    }
    let mut i: usize = from;
    while i <= slen - plen && plen <= slen
        invariant
            slen == s@.len(),
            plen == pat@.len(),
            plen <= slen,
            from <= i,
            i <= slen,
            forall|j: int| from <= j < i ==> !matches_at(s@, pat@, j),
        decreases slen - i,
    {
        let mut k: usize = 0;
        let mut hit = true;
        while k < plen
            invariant
                slen == s@.len(),
                plen == pat@.len(),
                i + plen <= slen,
                k <= plen,
                hit == (forall|m: int| 0 <= m < k ==> s@[i + m] == pat@[m]),
            decreases plen - k,
        {
            if s.get_char(i + k) != pat.get_char(k) {
                hit = false;
                proof {
                    assert(!(forall|m: int| 0 <= m < k + 1 ==> s@[i + m] == pat@[m])) by {
                        assert(s@[i + k as int] != pat@[k as int]);
                    }
                }
                k = plen;
            } else {
                k = k + 1;
            }
        }
        if hit {
            proof {
                assert(s@.subrange(i as int, i + plen) =~= pat@);
            }
            return Some(i);
        }
        proof {
            assert(!matches_at(s@, pat@, i as int)) by {
                if matches_at(s@, pat@, i as int) {
                    assert(forall|m: int| 0 <= m < plen ==> #[trigger] s@.subrange(
                        i as int,
                        i + plen,
                    )[m] == s@[i + m]);
                }
            }
        }
        i = i + 1;
    }
    proof {
        assert forall|j: int| from <= j < s@.len() implies !matches_at(s@, pat@, j) by {
            if j >= i {
                assert(j + pat@.len() > s@.len());
            }
        }
    }
    None
}

/// Position of the first `c` in `s` at or after `j`.
pub open spec fn first_pos_from(s: Seq<char>, c: char, j: int) -> Option<int>
    decreases s.len() - j,
{
    if j < 0 || j >= s.len() {
        None
    } else if s[j] == c {
        Some(j)
    } else {
        first_pos_from(s, c, j + 1)
    }
}

proof fn lemma_first_pos_step(s: Seq<char>, c: char, j: int, end: int)
    requires
        0 <= j <= end <= s.len(),
        forall|k: int| j <= k < end ==> s[k] != c,
    ensures
        first_pos_from(s, c, j) == first_pos_from(s, c, end),
    decreases end - j,
{
    if j < end {
        lemma_first_pos_step(s, c, j + 1, end);
    }
}

/// Ties the exec scan [`find_char_from`] to the spec [`first_pos_from`].
pub proof fn lemma_first_pos_of_scan(s: Seq<char>, c: char, from: int, r: Option<int>)
    requires
        0 <= from <= s.len(),
        match r {
            Some(i) => from <= i < s.len() && s[i] == c && forall|j: int| from <= j < i ==> s[j]
                != c,
            None => forall|j: int| from <= j < s.len() ==> s[j] != c,
        },
    ensures
        first_pos_from(s, c, from) == r,
{
    match r {
        Some(i) => {
            lemma_first_pos_step(s, c, from, i);
        },
        None => {
            lemma_first_pos_step(s, c, from, s.len() as int);
        },
    }
}

/// Position of the first occurrence of `pat` in `s` at or after `j`.
pub open spec fn first_match_from(s: Seq<char>, pat: Seq<char>, j: int) -> Option<int>
    decreases s.len() - j,
{
    if j < 0 || j + pat.len() > s.len() || pat.len() == 0 {
        None
    } else if matches_at(s, pat, j) {
        Some(j)
    } else {
        first_match_from(s, pat, j + 1)
    }
}

proof fn lemma_first_match_step(s: Seq<char>, pat: Seq<char>, j: int, end: int)
    requires
        0 <= j <= end <= s.len(),
        forall|k: int| j <= k < end ==> !matches_at(s, pat, k),
    ensures
        first_match_from(s, pat, j) == first_match_from(s, pat, end),
    decreases end - j,
{
    if j < end {
        lemma_first_match_step(s, pat, j + 1, end);
    }
}

/// Ties the exec scan [`find_sub_from`] to the spec [`first_match_from`].
pub proof fn lemma_first_match_of_scan(s: Seq<char>, pat: Seq<char>, from: int, r: Option<int>)
    requires
        0 <= from <= s.len(),
        pat.len() > 0,
        match r {
            Some(i) => from <= i && matches_at(s, pat, i) && forall|j: int|
                from <= j < i ==> !matches_at(s, pat, j),
            None => forall|j: int| from <= j < s.len() ==> !matches_at(s, pat, j),
        },
    ensures
        first_match_from(s, pat, from) == r,
{
    match r {
        Some(i) => {
            lemma_first_match_step(s, pat, from, i);
        },
        None => {
            lemma_first_match_step(s, pat, from, s.len() as int);
        },
    }
}

/// A piece, trimmed when `trim` is set.
pub open spec fn clean_piece(x: Seq<char>, trim: bool) -> Seq<char> {
    if trim {
        trim_spec(x)
    } else {
        x
    }
}

/// A piece, kept only when non-empty.
pub open spec fn keep_piece(x: Seq<char>) -> Seq<Seq<char>> {
    if x.len() > 0 {
        seq![x]
    } else {
        Seq::empty()
    }
}

/// Split `s` on `sep`, clean each piece, and keep the non-empty ones.  An
/// empty separator does not split.
pub open spec fn split_clean(s: Seq<char>, sep: Seq<char>, trim: bool) -> Seq<Seq<char>>
    decreases s.len(),
{
    if sep.len() == 0 {
        keep_piece(clean_piece(s, trim))
    } else {
        match first_match_from(s, sep, 0) {
            None => keep_piece(clean_piece(s, trim)),
            Some(p) => if 0 <= p && p + sep.len() <= s.len() {
                keep_piece(clean_piece(s.subrange(0, p), trim)) + split_clean(
                    s.subrange(p + sep.len(), s.len() as int),
                    sep,
                    trim,
                )
            } else {
                Seq::empty()
            },
        }
    }
}

/// Views of a list of strings.
pub open spec fn strings_view(s: Seq<String>) -> Seq<Seq<char>> {
    s.map_values(|p: String| p@)
}

/// Exec split: pieces of `s` between occurrences of `sep`, cleaned and kept
/// when non-empty, exact against [`split_clean`].
pub fn split_clean_vec(s: &str, sep: &str, trim: bool) -> (r: Vec<String>)
    ensures
        strings_view(r@) == split_clean(s@, sep@, trim),
{
    let len = s.unicode_len();
    let seplen = sep.unicode_len();
    let mut out: Vec<String> = Vec::new();
    if seplen == 0 {
        let piece = if trim {
            trim_of(s)
        } else {
            s.to_owned()
        };
        if piece.as_str().unicode_len() > 0 {
            out.push(piece);
        }
        proof {
            assert(strings_view(out@) =~= split_clean(s@, sep@, trim));
        }
        return out;
    }
    let mut start: usize = 0;
    let mut done = false;
    proof {
        assert(s@.subrange(0, len as int) =~= s@);
        assert(strings_view(out@) + split_clean(s@, sep@, trim) =~= split_clean(s@, sep@, trim));
    }
    while !done
        invariant
            len == s@.len(),
            seplen == sep@.len(),
            seplen > 0,
            done ==> split_clean(s@, sep@, trim) == strings_view(out@),
            !done ==> start <= len && split_clean(s@, sep@, trim) == strings_view(out@)
                + split_clean(s@.subrange(start as int, len as int), sep@, trim),
        decreases (if done {
            0int
        } else {
            len - start + 1
        }),
    {
        let ghost suffix = s@.subrange(start as int, len as int);
        let found = find_sub_from(s, sep, start);
        proof {
            let shifted = match found {
                Some(p) => Some(p - start),
                None => None::<int>,
            };
            assert forall|k: int| 0 <= k < suffix.len() implies (matches_at(suffix, sep@, k)
                == matches_at(s@, sep@, k + start)) by {
                lemma_matches_shift(s@, sep@, start as int, k);
            }
            match found {
                Some(p) => {
                    assert(matches_at(suffix, sep@, p - start));
                    assert forall|j: int| 0 <= j < p - start implies !matches_at(
                        suffix,
                        sep@,
                        j,
                    ) by {
                        assert(!matches_at(s@, sep@, j + start));
                    }
                    lemma_first_match_of_scan(suffix, sep@, 0, shifted);
                },
                None => {
                    assert forall|j: int| 0 <= j < suffix.len() implies !matches_at(
                        suffix,
                        sep@,
                        j,
                    ) by {
                        assert(!matches_at(s@, sep@, j + start));
                    }
                    lemma_first_match_of_scan(suffix, sep@, 0, shifted);
                },
            }
        }
        match found {
            Some(p) => {
                let piece = sub_string(s, start, p);
                let cleaned = if trim {
                    trim_of(piece.as_str())
                } else {
                    piece
                };
                proof {
                    assert(suffix.subrange(0, p - start) =~= s@.subrange(start as int, p as int));
                }
                let ghost before = strings_view(out@);
                if cleaned.as_str().unicode_len() > 0 {
                    let ghost cv = cleaned@;
                    out.push(cleaned);
                    proof {
                        assert(strings_view(out@) =~= before.push(cv));
                    }
                }
                proof {
                    assert(suffix.subrange(seplen + (p - start), suffix.len() as int)
                        =~= s@.subrange(p + seplen, len as int));
                    assert(strings_view(out@) + split_clean(
                        s@.subrange(p + seplen, len as int),
                        sep@,
                        trim,
                    ) =~= split_clean(s@, sep@, trim));
                }
                start = p + seplen;
            },
            None => {
                let piece = sub_string(s, start, len);
                let cleaned = if trim {
                    trim_of(piece.as_str())
                } else {
                    piece
                };
                if cleaned.as_str().unicode_len() > 0 {
                    out.push(cleaned);
                }
                proof {
                    assert(strings_view(out@) =~= split_clean(s@, sep@, trim));
                }
                done = true;
            },
        }
    }
    out
}

/// Occurrences of `pat` shift with the window: matching inside a suffix is
/// matching at the shifted position of the whole.
proof fn lemma_matches_shift(s: Seq<char>, pat: Seq<char>, start: int, k: int)
    requires
        0 <= start <= s.len(),
        0 <= k,
    ensures
        matches_at(s.subrange(start, s.len() as int), pat, k) == matches_at(s, pat, k + start),
{
    let suffix = s.subrange(start, s.len() as int);
    if k + pat.len() <= suffix.len() {
        assert(suffix.subrange(k, k + pat.len()) =~= s.subrange(k + start, k + start + pat.len()));
    }
}

} // verus!
