//! Verified string helpers: equality, prefixes, trimming, splitting
//! and joining, used by the identifier-string logic.

use vstd::prelude::*;

verus! {

/// ASCII whitespace, the characters the identifier grammar separates
/// fields on.
pub open spec fn is_space_char(c: char) -> bool {
    c == ' ' || c == '\t' || c == '\n' || c == '\r' || c == '\u{b}' || c == '\u{c}'
}

/// `p` is a prefix of `s`.
pub open spec fn has_prefix(s: Seq<char>, p: Seq<char>) -> bool {
    p.len() <= s.len() && s.subrange(0, p.len() as int) == p
}

/// Index of the first occurrence of `c` in `s`, or the length.
pub open spec fn find_ch(s: Seq<char>, c: char) -> int
    decreases s.len(),
{
    if s.len() == 0 {
        0
    } else if s[0] == c {
        0
    } else {
        1 + find_ch(s.drop_first(), c)
    }
}

pub proof fn lemma_find_ch(s: Seq<char>, c: char)
    ensures
        0 <= find_ch(s, c) <= s.len(),
        find_ch(s, c) < s.len() ==> s[find_ch(s, c)] == c,
        forall|j: int| 0 <= j < find_ch(s, c) ==> s[j] != c,
    decreases s.len(),
{
    if s.len() > 0 && s[0] != c {
        lemma_find_ch(s.drop_first(), c);
        assert forall|j: int| 0 <= j < find_ch(s, c) implies s[j] != c by {
            if j > 0 {
                assert(s.drop_first()[j - 1] != c);
            }
        }
    }
}

/// Any position with the first-occurrence properties is `find_ch`.
pub proof fn lemma_find_ch_unique(s: Seq<char>, c: char, i: int)
    requires
        0 <= i <= s.len(),
        i < s.len() ==> s[i] == c,
        forall|j: int| 0 <= j < i ==> s[j] != c,
    ensures
        i == find_ch(s, c),
{
    lemma_find_ch(s, c);
    if i < find_ch(s, c) {
        assert(s[i] != c);
    }
    if find_ch(s, c) < i {
        assert(s[find_ch(s, c)] != c);
    }
}

/// The pieces of `s` between occurrences of `c`, in order; empty
/// pieces are kept, as with Rust's `split`.
pub open spec fn split_on(s: Seq<char>, c: char) -> Seq<Seq<char>>
    decreases s.len(),
    via split_on_decreases
{
    let i = find_ch(s, c);
    if i == s.len() {
        seq![s]
    } else {
        seq![s.subrange(0, i)] + split_on(s.subrange(i + 1, s.len() as int), c)
    }
}

#[via_fn]
proof fn split_on_decreases(s: Seq<char>, c: char) {
    lemma_find_ch(s, c);
}

pub proof fn lemma_split_on_len(s: Seq<char>, c: char)
    ensures
        split_on(s, c).len() >= 1,
    decreases s.len(),
{
    lemma_find_ch(s, c);
}

/// The pieces joined back with `sep` between them.
pub open spec fn join_with_sep(ps: Seq<Seq<char>>, sep: Seq<char>) -> Seq<char>
    decreases ps.len(),
{
    if ps.len() == 0 {
        Seq::empty()
    } else if ps.len() == 1 {
        ps[0]
    } else {
        ps[0] + sep + join_with_sep(ps.drop_first(), sep)
    }
}

pub proof fn lemma_join_snoc(ps: Seq<Seq<char>>, sep: Seq<char>, x: Seq<char>)
    ensures
        ps.len() == 0 ==> join_with_sep(ps.push(x), sep) == x,
        ps.len() > 0 ==> join_with_sep(ps.push(x), sep) =~= join_with_sep(ps, sep) + sep + x,
    decreases ps.len(),
{
    if ps.len() == 0 {
        assert(ps.push(x)[0] == x);
    } else {
        lemma_join_snoc(ps.drop_first(), sep, x);
        assert(ps.push(x).drop_first() =~= ps.drop_first().push(x));
        assert(ps.push(x)[0] == ps[0]);
        if ps.len() == 1 {
            assert(ps.drop_first().len() == 0);
            assert(join_with_sep(ps.push(x), sep) == ps[0] + sep + x);
        }
    }
}

/// Leading whitespace span.
pub open spec fn ws_front(s: Seq<char>) -> int
    decreases s.len(),
{
    if s.len() > 0 && is_space_char(s[0]) {
        1 + ws_front(s.drop_first())
    } else {
        0
    }
}

/// Trailing whitespace starts here.
pub open spec fn ws_back(s: Seq<char>) -> int
    decreases s.len(),
{
    if s.len() > 0 && is_space_char(s.last()) {
        ws_back(s.drop_last())
    } else {
        s.len() as int
    }
}

/// `s` with surrounding whitespace removed.
pub open spec fn trim_spec(s: Seq<char>) -> Seq<char> {
    if ws_front(s) == s.len() {
        Seq::empty()
    } else {
        s.subrange(ws_front(s), ws_back(s))
    }
}

pub proof fn lemma_ws_front(s: Seq<char>)
    ensures
        0 <= ws_front(s) <= s.len(),
        forall|j: int| 0 <= j < ws_front(s) ==> is_space_char(s[j]),
        ws_front(s) < s.len() ==> !is_space_char(s[ws_front(s)]),
    decreases s.len(),
{
    if s.len() > 0 && is_space_char(s[0]) {
        lemma_ws_front(s.drop_first());
        assert forall|j: int| 0 <= j < ws_front(s) implies is_space_char(s[j]) by {
            if j > 0 {
                assert(is_space_char(s.drop_first()[j - 1]));
            }
        }
    }
}

pub proof fn lemma_ws_front_unique(s: Seq<char>, i: int)
    requires
        0 <= i <= s.len(),
        forall|j: int| 0 <= j < i ==> is_space_char(s[j]),
        i < s.len() ==> !is_space_char(s[i]),
    ensures
        i == ws_front(s),
{
    lemma_ws_front(s);
    if i < ws_front(s) {
        assert(is_space_char(s[i]));
    }
    if ws_front(s) < i {
        assert(is_space_char(s[ws_front(s)]));
    }
}

pub proof fn lemma_ws_back(s: Seq<char>)
    ensures
        0 <= ws_back(s) <= s.len(),
        forall|j: int| ws_back(s) <= j < s.len() ==> is_space_char(s[j]),
        ws_back(s) > 0 ==> !is_space_char(s[ws_back(s) - 1]),
    decreases s.len(),
{
    if s.len() > 0 && is_space_char(s.last()) {
        lemma_ws_back(s.drop_last());
        assert forall|j: int| ws_back(s) <= j < s.len() implies is_space_char(s[j]) by {
            if j < s.len() - 1 {
                assert(is_space_char(s.drop_last()[j]));
            }
        }
    }
}

pub proof fn lemma_ws_back_unique(s: Seq<char>, i: int)
    requires
        0 <= i <= s.len(),
        forall|j: int| i <= j < s.len() ==> is_space_char(s[j]),
        i > 0 ==> !is_space_char(s[i - 1]),
    ensures
        i == ws_back(s),
{
    lemma_ws_back(s);
    if i < ws_back(s) {
        assert(!is_space_char(s[ws_back(s) - 1]));
        assert(is_space_char(s[ws_back(s) - 1]));
    }
    if ws_back(s) < i {
        assert(is_space_char(s[i - 1]));
    }
}

/// Character-wise string equality.
pub fn str_eq(a: &str, b: &str) -> (r: bool)
    ensures
        r == (a@ == b@),
{
    let la = a.unicode_len();
    let lb = b.unicode_len();
    if la != lb {
        return false;
    }
    let mut i: usize = 0;
    while i < la
        invariant
            i <= la,
            la == a@.len(),
            la == b@.len(),
            forall|j: int| 0 <= j < i ==> a@[j] == b@[j],
        decreases la - i,
    {
        if a.get_char(i) != b.get_char(i) {
            return false;
        }
        i = i + 1;
    }
    proof {
        assert(a@ =~= b@);
    }
    true
}

/// Does `s` start with `p`?
pub fn starts_with_str(s: &str, p: &str) -> (r: bool)
    ensures
        r == has_prefix(s@, p@),
{
    let ls = s.unicode_len();
    let lp = p.unicode_len();
    if lp > ls {
        return false;
    }
    let mut i: usize = 0;
    while i < lp
        invariant
            i <= lp,
            lp == p@.len(),
            ls == s@.len(),
            lp <= ls,
            forall|j: int| 0 <= j < i ==> s@[j] == p@[j],
        decreases lp - i,
    {
        if s.get_char(i) != p.get_char(i) {
            proof {
                if has_prefix(s@, p@) {
                    assert(s@.subrange(0, p@.len() as int)[i as int] == p@[i as int]);
                }
            }
            return false;
        }
        i = i + 1;
    }
    proof {
        assert(s@.subrange(0, p@.len() as int) =~= p@);
    }
    true
}

/// Index of the first occurrence of `c` at or after `from`, or the
/// length of `s`.
pub fn find_char_from(s: &str, from: usize, c: char) -> (r: usize)
    requires
        from <= s@.len(),
    ensures
        from <= r <= s@.len(),
        r < s@.len() ==> s@[r as int] == c,
        forall|j: int| from <= j < r ==> s@[j] != c,
{
    let len = s.unicode_len();
    let mut i: usize = from;
    while i < len
        invariant
            from <= i <= len,
            len == s@.len(),
            forall|j: int| from <= j < i ==> s@[j] != c,
        decreases len - i,
    {
        if s.get_char(i) == c {
            return i;
        }
        i = i + 1;
    }
    len
}

/// Is the character at `i` whitespace?
pub fn space_at(s: &str, i: usize) -> (r: bool)
    requires
        i < s@.len(),
    ensures
        r == is_space_char(s@[i as int]),
{
    let ch = s.get_char(i);
    ch == ' ' || ch == '\t' || ch == '\n' || ch == '\r' || ch == '\u{b}' || ch == '\u{c}'
}

/// `s` with surrounding whitespace removed.
pub fn trim_str<'a>(s: &'a str) -> (r: &'a str)
    ensures
        r@ == trim_spec(s@),
{
    let len = s.unicode_len();
    let mut b: usize = 0;
    while b < len && space_at(s, b)
        invariant
            b <= len,
            len == s@.len(),
            forall|j: int| 0 <= j < b ==> is_space_char(s@[j]),
        decreases len - b,
    {
        b = b + 1;
    }
    if b == len {
        proof {
            lemma_ws_front_unique(s@, len as int);
        }
        let r = s.substring_char(len, len);
        proof {
            assert(r@ =~= trim_spec(s@));
        }
        return r;
    }
    let mut e: usize = len;
    proof {
        lemma_ws_front_unique(s@, b as int);
    }
    while e > b && space_at(s, e - 1)
        invariant
            b < e <= len,
            b < len,
            len == s@.len(),
            !is_space_char(s@[b as int]),
            forall|j: int| e <= j < len ==> is_space_char(s@[j]),
            b as int == ws_front(s@),
        decreases e,
    {
        e = e - 1;
    }
    proof {
        assert(!is_space_char(s@[e - 1]));
        lemma_ws_back_unique(s@, e as int);
    }
    s.substring_char(b, e)
}

/// Index of the first whitespace character, or the length.
pub open spec fn first_space(s: Seq<char>) -> int
    decreases s.len(),
{
    if s.len() == 0 {
        0
    } else if is_space_char(s[0]) {
        0
    } else {
        1 + first_space(s.drop_first())
    }
}

pub proof fn lemma_first_space(s: Seq<char>)
    ensures
        0 <= first_space(s) <= s.len(),
        first_space(s) < s.len() ==> is_space_char(s[first_space(s)]),
        forall|j: int| 0 <= j < first_space(s) ==> !is_space_char(s[j]),
    decreases s.len(),
{
    if s.len() > 0 && !is_space_char(s[0]) {
        lemma_first_space(s.drop_first());
        assert forall|j: int| 0 <= j < first_space(s) implies !is_space_char(s[j]) by {
            if j > 0 {
                assert(!is_space_char(s.drop_first()[j - 1]));
            }
        }
    }
}

pub proof fn lemma_first_space_unique(s: Seq<char>, i: int)
    requires
        0 <= i <= s.len(),
        i < s.len() ==> is_space_char(s[i]),
        forall|j: int| 0 <= j < i ==> !is_space_char(s[j]),
    ensures
        i == first_space(s),
{
    lemma_first_space(s);
    if i < first_space(s) {
        assert(!is_space_char(s[i]));
    }
    if first_space(s) < i {
        assert(!is_space_char(s[first_space(s)]));
    }
}

/// The whitespace-separated tokens of `s`, in order, with no empty
/// tokens, as with Rust's `split_whitespace`.
pub open spec fn split_ws(s: Seq<char>) -> Seq<Seq<char>>
    decreases s.len(),
    via split_ws_decreases
{
    let b = ws_front(s);
    if b == s.len() {
        Seq::empty()
    } else {
        let rest = s.subrange(b, s.len() as int);
        let t = first_space(rest);
        seq![rest.subrange(0, t)] + split_ws(rest.subrange(t, rest.len() as int))
    }
}

#[via_fn]
proof fn split_ws_decreases(s: Seq<char>) {
    lemma_ws_front(s);
    if ws_front(s) < s.len() {
        let rest = s.subrange(ws_front(s), s.len() as int);
        lemma_first_space(rest);
        assert(!is_space_char(rest[0]));
        assert(first_space(rest) >= 1) by {
            if first_space(rest) == 0 {
                assert(is_space_char(rest[0]));
            }
        }
    }
}

/// Splitting ignores leading whitespace.
pub proof fn lemma_split_ws_skip(s: Seq<char>, b: int)
    requires
        b == ws_front(s),
    ensures
        split_ws(s) == split_ws(s.subrange(b, s.len() as int)),
{
    lemma_ws_front(s);
    let rest = s.subrange(b, s.len() as int);
    if b == s.len() {
        assert(rest =~= Seq::<char>::empty());
        assert(ws_front(rest) == 0);
    } else {
        assert(!is_space_char(rest[0]));
        lemma_ws_front_unique(rest, 0);
        assert(rest.subrange(0, rest.len() as int) =~= rest);
    }
}

/// Concatenate the pieces with `sep` between them.
pub fn join_strings(parts: &[String], sep: &str) -> (r: String)
    ensures
        r@ == join_with_sep(parts.deep_view(), sep@),
{
    let mut acc = String::new();
    let mut i: usize = 0;
    while i < parts.len()
        invariant
            i <= parts@.len(),
            parts.deep_view().len() == parts@.len(),
            forall|k: int|
                0 <= k < parts@.len() ==> parts.deep_view()[k] == (#[trigger] parts@[k])@,
            acc@ == join_with_sep(parts.deep_view().take(i as int), sep@),
        decreases parts@.len() - i,
    {
        if i > 0 {
            acc.append(sep);
        }
        acc.append(parts[i].as_str());
        proof {
            let dv = parts.deep_view();
            assert(dv.take(i as int).push(dv[i as int]) =~= dv.take(i + 1));
            lemma_join_snoc(dv.take(i as int), sep@, dv[i as int]);
            if i == 0 {
                assert(Seq::<char>::empty() + dv[0] =~= dv[0]);
            }
        }
        i = i + 1;
    }
    proof {
        assert(parts.deep_view().take(parts.deep_view().len() as int) =~= parts.deep_view());
    }
    acc
}

/// Concatenate the pieces from index `from` on with `sep` between
/// them.
pub fn join_from(parts: &Vec<String>, from: usize, sep: &str) -> (r: String)
    requires
        from <= parts@.len(),
    ensures
        r@ == join_with_sep(
            parts.deep_view().subrange(from as int, parts.deep_view().len() as int),
            sep@,
        ),
{
    let mut acc = String::new();
    let mut i: usize = from;
    while i < parts.len()
        invariant
            from <= i <= parts@.len(),
            parts.deep_view().len() == parts@.len(),
            forall|k: int|
                0 <= k < parts@.len() ==> parts.deep_view()[k] == (#[trigger] parts@[k])@,
            acc@ == join_with_sep(parts.deep_view().subrange(from as int, i as int), sep@),
        decreases parts@.len() - i,
    {
        if i > from {
            acc.append(sep);
        }
        acc.append(parts[i].as_str());
        proof {
            let dv = parts.deep_view();
            assert(dv.subrange(from as int, i as int).push(dv[i as int]) =~= dv.subrange(
                from as int,
                i + 1,
            ));
            lemma_join_snoc(dv.subrange(from as int, i as int), sep@, dv[i as int]);
            if i == from {
                assert(Seq::<char>::empty() + dv[from as int] =~= dv[from as int]);
            }
        }
        i = i + 1;
    }
    acc
}

/// Index of the first non-whitespace character at or after `from`, or
/// the length of `s`.
pub fn skip_spaces_from(s: &str, from: usize) -> (r: usize)
    requires
        from <= s@.len(),
    ensures
        from <= r <= s@.len(),
        r < s@.len() ==> !is_space_char(s@[r as int]),
        forall|j: int| from <= j < r ==> is_space_char(s@[j]),
{
    let len = s.unicode_len();
    let mut i: usize = from;
    while i < len && space_at(s, i)
        invariant
            from <= i <= len,
            len == s@.len(),
            forall|j: int| from <= j < i ==> is_space_char(s@[j]),
        decreases len - i,
    {
        i = i + 1;
    }
    i
}

/// Index of the first whitespace character at or after `from`, or the
/// length of `s`.
pub fn find_space_from(s: &str, from: usize) -> (r: usize)
    requires
        from <= s@.len(),
    ensures
        from <= r <= s@.len(),
        r < s@.len() ==> is_space_char(s@[r as int]),
        forall|j: int| from <= j < r ==> !is_space_char(s@[j]),
{
    let len = s.unicode_len();
    let mut i: usize = from;
    while i < len && !space_at(s, i)
        invariant
            from <= i <= len,
            len == s@.len(),
            forall|j: int| from <= j < i ==> !is_space_char(s@[j]),
        decreases len - i,
    {
        i = i + 1;
    }
    i
}

/// The pieces of `s` split on `c`, as owned strings.
#[verifier::loop_isolation(false)]
pub fn split_on_char(s: &str, c: char) -> (parts: Vec<String>)
    ensures
        parts.deep_view() == split_on(s@, c),
{
    let len = s.unicode_len();
    let mut parts: Vec<String> = Vec::new();
    let mut pos: usize = 0;
    proof {
        assert(s@.subrange(0, len as int) =~= s@);
        assert(Seq::<Seq<char>>::empty() + split_on(s@, c) =~= split_on(s@, c));
    }
    let mut i: usize = find_char_from(s, pos, c);
    while i < len
        invariant
            pos <= i <= len,
            i < len ==> s@[i as int] == c,
            forall|j: int| pos <= j < i ==> s@[j] != c,
            parts.deep_view() + split_on(s@.subrange(pos as int, len as int), c) == split_on(
                s@,
                c,
            ),
        decreases len - pos,
    {
        let piece = String::from_str(s.substring_char(pos, i));
        let ghost dpre = parts.deep_view();
        let ghost rem = s@.subrange(pos as int, len as int);
        parts.push(piece);
        proof {
            assert(parts.deep_view() =~= dpre.push(piece@));
            assert forall|j: int| 0 <= j < i - pos implies rem[j] != c by {
                assert(s@[pos + j] != c);
            }
            assert(rem[i - pos] == c);
            lemma_find_ch_unique(rem, c, i - pos);
            assert(piece@ =~= rem.subrange(0, i - pos));
            assert(rem.subrange(i - pos + 1, rem.len() as int) =~= s@.subrange(
                i + 1,
                len as int,
            ));
            assert(split_on(rem, c) == seq![rem.subrange(0, i - pos)] + split_on(
                s@.subrange(i + 1, len as int),
                c,
            ));
            assert(dpre.push(piece@) + split_on(s@.subrange(i + 1, len as int), c) =~= dpre
                + split_on(rem, c));
        }
        pos = i + 1;
        i = find_char_from(s, pos, c);
    }
    let piece = String::from_str(s.substring_char(pos, len));
    let ghost dpre = parts.deep_view();
    let ghost rem = s@.subrange(pos as int, len as int);
    parts.push(piece);
    proof {
        assert(parts.deep_view() =~= dpre.push(piece@));
        assert forall|j: int| 0 <= j < rem.len() implies rem[j] != c by {
            assert(s@[pos + j] != c);
        }
        lemma_find_ch_unique(rem, c, rem.len() as int);
        assert(piece@ =~= rem);
        assert(split_on(rem, c) == seq![rem]);
        assert(dpre.push(piece@) =~= dpre + seq![rem]);
    }
    parts
}

/// The whitespace-separated tokens of `s`, as owned strings.
#[verifier::loop_isolation(false)]
#[verifier::rlimit(50)]
pub fn split_ws_str(s: &str) -> (parts: Vec<String>)
    ensures
        parts.deep_view() == split_ws(s@),
{
    let len = s.unicode_len();
    let mut parts: Vec<String> = Vec::new();
    let mut b: usize = skip_spaces_from(s, 0);
    proof {
        lemma_ws_front_unique(s@, b as int);
        lemma_split_ws_skip(s@, b as int);
        if b == len {
            assert(split_ws(s@.subrange(b as int, len as int)) =~= split_ws(s@));
        }
        assert(Seq::<Seq<char>>::empty() + split_ws(s@.subrange(b as int, len as int))
            =~= split_ws(s@.subrange(b as int, len as int)));
    }
    while b < len
        invariant
            b <= len,
            b < len ==> !is_space_char(s@[b as int]),
            parts.deep_view() + split_ws(s@.subrange(b as int, len as int)) == split_ws(s@),
        decreases len - b,
    {
        let e = find_space_from(s, b);
        let piece = String::from_str(s.substring_char(b, e));
        let ghost dpre = parts.deep_view();
        let ghost rem = s@.subrange(b as int, len as int);
        let b2 = skip_spaces_from(s, e);
        parts.push(piece);
        proof {
            assert(parts.deep_view() =~= dpre.push(piece@));
            // in rem coordinates the token spans [0, e - b)
            lemma_ws_front_unique(rem, 0);
            assert(rem.subrange(0, rem.len() as int) =~= rem);
            assert forall|j: int| 0 <= j < e - b implies !is_space_char(rem[j]) by {
                assert(!is_space_char(s@[b + j]));
            }
            if e < len {
                assert(is_space_char(rem[e - b]));
            }
            lemma_first_space_unique(rem, e - b);
            assert(piece@ =~= rem.subrange(0, e - b));
            let tail = rem.subrange(e - b, rem.len() as int);
            assert(split_ws(rem) == seq![rem.subrange(0, e - b)] + split_ws(tail));
            assert(tail =~= s@.subrange(e as int, len as int));
            // skipping the spaces after the token keeps the tokens
            assert forall|j: int| 0 <= j < b2 - e implies is_space_char(tail[j]) by {
                assert(is_space_char(s@[e + j]));
            }
            if b2 < len {
                assert(!is_space_char(tail[b2 - e]));
            }
            lemma_ws_front_unique(tail, b2 - e);
            lemma_split_ws_skip(tail, b2 - e);
            assert(tail.subrange(b2 - e, tail.len() as int) =~= s@.subrange(
                b2 as int,
                len as int,
            ));
            assert(dpre.push(piece@) + split_ws(s@.subrange(b2 as int, len as int)) =~= dpre
                + split_ws(rem));
            if b2 == len {
                assert(s@.subrange(b2 as int, len as int) =~= Seq::<char>::empty());
            }
        }
        b = b2;
    }
    proof {
        if b == len {
            assert(split_ws(s@.subrange(b as int, len as int)) =~= Seq::<Seq<char>>::empty());
            assert(parts.deep_view() + Seq::<Seq<char>>::empty() =~= parts.deep_view());
        }
    }
    parts
}

} // verus!
