use vstd::prelude::*;
use vstd::string::StrSliceExecFns;
use vstd::string::StringExecFns;

verus! {

/// The characters that count as whitespace when a line or a field name is
/// trimmed: the set that `char::is_whitespace` documents (the Unicode
/// White_Space property).
pub open spec fn is_ws(c: char) -> bool {
    ||| (0x09 <= c as u32 && c as u32 <= 0x0d)
    ||| c == ' '
    ||| c as u32 == 0x85
    ||| c as u32 == 0xa0
    ||| c as u32 == 0x1680
    ||| (0x2000 <= c as u32 && c as u32 <= 0x200a)
    ||| c as u32 == 0x2028
    ||| c as u32 == 0x2029
    ||| c as u32 == 0x202f
    ||| c as u32 == 0x205f
    ||| c as u32 == 0x3000
}

pub fn char_is_ws(c: char) -> (b: bool)
    ensures
        b == is_ws(c),
{
    let n = c as u32;
    (0x09 <= n && n <= 0x0d) || n == 0x20 || n == 0x85 || n == 0xa0 || n == 0x1680 || (0x2000 <= n
        && n <= 0x200a) || n == 0x2028 || n == 0x2029 || n == 0x202f || n == 0x205f || n == 0x3000
}

/// The characters of a string slice, one by one.
pub fn to_chars(s: &str) -> (r: Vec<char>)
    ensures
        r@ == s@,
{
    let n = s.unicode_len();
    let mut r: Vec<char> = Vec::new();
    let mut i: usize = 0;
    while i < n
        invariant
            i <= n,
            n == s@.len(),
            r@ == s@.subrange(0, i as int),
        decreases n - i,
    {
        r.push(s.get_char(i));
        i = i + 1;
        proof {
            assert(r@ =~= s@.subrange(0, i as int));
        }
    }
    proof {
        assert(s@.subrange(0, s@.len() as int) =~= s@);
    }
    r
}

/// Relies on `String::push`: appends the one character to the string.
#[verifier::external_body]
pub(crate) fn push_char(s: &mut String, c: char)
    ensures
        final (s)@ == old(s)@.push(c),
{
    s.push(c);
}

/// A string holding exactly the given characters.
pub fn chars_to_string(v: &Vec<char>) -> (r: String)
    ensures
        r@ == v@,
{
    let mut r = String::new();
    let mut i: usize = 0;
    while i < v.len()
        invariant
            i <= v.len(),
            r@ == v@.subrange(0, i as int),
        decreases v.len() - i,
    {
        push_char(&mut r, v[i]);
        i = i + 1;
        proof {
            assert(r@ =~= v@.subrange(0, i as int));
        }
    }
    proof {
        assert(v@.subrange(0, v@.len() as int) =~= v@);
    }
    r
}

/// Character-for-character equality of two string slices.
pub fn str_eq(a: &str, b: &str) -> (r: bool)
    ensures
        r == (a@ == b@),
{
    let an = a.unicode_len();
    let bn = b.unicode_len();
    if an != bn {
        return false;
    }
    let mut i: usize = 0;
    while i < an
        invariant
            i <= an,
            an == a@.len(),
            an == b@.len(),
            forall|j: int| 0 <= j < i ==> a@[j] == b@[j],
        decreases an - i,
    {
        if a.get_char(i) != b.get_char(i) {
            return false;
        }
        i = i + 1;
    }
    proof {
        assert(a@ =~= b@);
    }
    true
}


/// How many leading whitespace characters the sequence has.
pub open spec fn ws_prefix_len(s: Seq<char>) -> int
    decreases s.len(),
{
    if s.len() == 0 || !is_ws(s[0]) {
        0
    } else {
        1 + ws_prefix_len(s.drop_first())
    }
}

/// How many trailing whitespace characters the sequence has.
pub open spec fn ws_suffix_len(s: Seq<char>) -> int
    decreases s.len(),
{
    if s.len() == 0 || !is_ws(s.last()) {
        0
    } else {
        1 + ws_suffix_len(s.drop_last())
    }
}

/// The sequence with its leading whitespace removed.
pub open spec fn trim_start_spec(s: Seq<char>) -> Seq<char> {
    s.skip(ws_prefix_len(s))
}

/// The sequence with its trailing whitespace removed.
pub open spec fn trim_end_spec(s: Seq<char>) -> Seq<char> {
    s.take(s.len() - ws_suffix_len(s))
}

/// The sequence with whitespace removed at both ends, as `str::trim` does.
pub open spec fn trim_spec(s: Seq<char>) -> Seq<char> {
    trim_end_spec(trim_start_spec(s))
}

/// The leading-whitespace count is the index of the first character that is
/// not whitespace.
pub proof fn lemma_ws_prefix(s: Seq<char>)
    ensures
        0 <= ws_prefix_len(s) <= s.len(),
        forall|i: int| 0 <= i < ws_prefix_len(s) ==> is_ws(s[i]),
        ws_prefix_len(s) < s.len() ==> !is_ws(s[ws_prefix_len(s)]),
    decreases s.len(),
{
    if s.len() > 0 && is_ws(s[0]) {
        lemma_ws_prefix(s.drop_first());
        let p = ws_prefix_len(s);
        assert forall|i: int| 0 <= i < p implies is_ws(s[i]) by {
            if i > 0 {
                assert(is_ws(s.drop_first()[i - 1]));
            }
        }
        if p < s.len() {
            assert(!is_ws(s.drop_first()[p - 1]));
        }
    }
}

/// The trailing-whitespace count marks the last character that is not
/// whitespace.
pub proof fn lemma_ws_suffix(s: Seq<char>)
    ensures
        0 <= ws_suffix_len(s) <= s.len(),
        forall|i: int| s.len() - ws_suffix_len(s) <= i < s.len() ==> is_ws(s[i]),
        s.len() - ws_suffix_len(s) - 1 >= 0 ==> !is_ws(s[s.len() - ws_suffix_len(s) - 1]),
    decreases s.len(),
{
    if s.len() > 0 && is_ws(s.last()) {
        lemma_ws_suffix(s.drop_last());
        let q = ws_suffix_len(s);
        assert forall|i: int| s.len() - q <= i < s.len() implies is_ws(s[i]) by {
            if i < s.len() - 1 {
                assert(is_ws(s.drop_last()[i]));
            }
        }
        if s.len() - q - 1 >= 0 {
            assert(!is_ws(s.drop_last()[s.len() - q - 1]));
        }
    }
}

/// The characters of the argument with whitespace removed at both ends.
pub fn trim_chars(v: &Vec<char>) -> (r: Vec<char>)
    ensures
        r@ == trim_spec(v@),
{
    proof {
        lemma_ws_prefix(v@);
    }
    let n = v.len();
    let mut start: usize = 0;
    while start < n && char_is_ws(v[start])
        invariant
            0 <= start <= n,
            n == v@.len(),
            forall|i: int| 0 <= i < start ==> is_ws(v@[i]),
        decreases n - start,
    {
        start = start + 1;
    }
    proof {
        let p = ws_prefix_len(v@);
        if start < p {
            assert(is_ws(v@[start as int]));
            assert(false);
        }
        if p < start {
            assert(is_ws(v@[p]));
            assert(false);
        }
    }
    let mut end: usize = n;
    proof {
        lemma_ws_suffix(v@.skip(start as int));
    }
    while end > start && char_is_ws(v[end - 1])
        invariant
            start <= end <= n,
            n == v@.len(),
            forall|i: int| end <= i < n ==> is_ws(v@[i]),
        decreases end,
    {
        end = end - 1;
    }
    proof {
        let t = v@.skip(start as int);
        let q = ws_suffix_len(t);
        // end - start equals t.len() - q: each bound contradicts otherwise
        if (end - start) < t.len() - q {
            assert(is_ws(t[end - start]) || end == start);
            if end > start {
                assert(t[end - start] == v@[end as int]);
                assert(false);
            } else {
                assert(is_ws(t[t.len() - q - 1]));
                assert(false);
            }
        }
        if (end - start) > t.len() - q {
            assert(is_ws(t[end - start - 1]));
            assert(t[end - start - 1] == v@[end - 1]);
            assert(!is_ws(v@[end - 1]));
            assert(false);
        }
    }
    let mut r: Vec<char> = Vec::new();
    let mut i: usize = start;
    while i < end
        invariant
            start <= i <= end <= n,
            n == v@.len(),
            r@ == v@.subrange(start as int, i as int),
        decreases end - i,
    {
        r.push(v[i]);
        i = i + 1;
        proof {
            assert(r@ =~= v@.subrange(start as int, i as int));
        }
    }
    proof {
        let t = v@.skip(start as int);
        assert(r@ =~= t.take(t.len() - ws_suffix_len(t)));
    }
    r
}


/// The index of the first occurrence of the character, if any.
pub open spec fn first_at(s: Seq<char>, c: char) -> Option<int>
    decreases s.len(),
{
    if s.len() == 0 {
        None
    } else if s[0] == c {
        Some(0int)
    } else {
        match first_at(s.drop_first(), c) {
            Some(i) => Some(i + 1),
            None => None,
        }
    }
}

/// `first_at` answers the least index holding the character.
pub proof fn lemma_first_at(s: Seq<char>, c: char)
    ensures
        match first_at(s, c) {
            Some(i) => 0 <= i < s.len() && s[i] == c && (forall|j: int| 0 <= j < i ==> s[j] != c),
            None => forall|j: int| 0 <= j < s.len() ==> s[j] != c,
        },
    decreases s.len(),
{
    if s.len() > 0 && s[0] != c {
        lemma_first_at(s.drop_first(), c);
        match first_at(s.drop_first(), c) {
            Some(i) => {
                assert(s.drop_first()[i] == c);
                assert forall|j: int| 0 <= j < i + 1 implies s[j] != c by {
                    if j > 0 {
                        assert(s.drop_first()[j - 1] != c);
                    }
                }
            },
            None => {
                assert forall|j: int| 0 <= j < s.len() implies s[j] != c by {
                    if j > 0 {
                        assert(s.drop_first()[j - 1] != c);
                    }
                }
            },
        }
    }
}

/// The first index at or after `from` holding the character, scanning the
/// vector.
pub fn find_from(v: &Vec<char>, c: char, from: usize) -> (r: Option<usize>)
    requires
        from <= v@.len(),
    ensures
        match r {
            Some(j) => from <= j < v@.len() && first_at(v@.skip(from as int), c) == Some(
                j - from,
            ),
            None => first_at(v@.skip(from as int), c) is None,
        },
{
    let n = v.len();
    let mut i: usize = from;
    while i < n
        invariant
            from <= i <= n,
            n == v@.len(),
            forall|j: int| from <= j < i ==> v@[j] != c,
        decreases n - i,
    {
        if v[i] == c {
            proof {
                let t = v@.skip(from as int);
                lemma_first_at(t, c);
                assert(t[i - from] == c);
                match first_at(t, c) {
                    Some(k) => {
                        assert(t[k] == c);
                        if k < i - from {
                            assert(v@[k + from] != c);
                            assert(false);
                        }
                        if k > i - from {
                            assert(t[i - from] != c);
                            assert(false);
                        }
                    },
                    None => {
                        assert(t[i - from] != c);
                        assert(false);
                    },
                }
            }
            return Some(i);
        }
        i = i + 1;
    }
    proof {
        let t = v@.skip(from as int);
        lemma_first_at(t, c);
        match first_at(t, c) {
            Some(k) => {
                assert(t[k] == c);
                assert(v@[k + from] != c);
                assert(false);
            },
            None => {},
        }
    }
    None
}

/// The pieces of the sequence between occurrences of the separator, in
/// order; an empty sequence is one empty piece.
pub open spec fn split_char_spec(s: Seq<char>, c: char) -> Seq<Seq<char>>
    decreases s.len(),
    via split_char_spec_dec
{
    match first_at(s, c) {
        None => seq![s],
        Some(i) => seq![s.take(i)] + split_char_spec(s.skip(i + 1), c),
    }
}

#[via_fn]
proof fn split_char_spec_dec(s: Seq<char>, c: char) {
    lemma_first_at(s, c);
}

/// One line with a final carriage return removed, as `str::lines` strips it.
pub open spec fn strip_cr(s: Seq<char>) -> Seq<char> {
    if s.len() > 0 && s.last() == '\r' {
        s.drop_last()
    } else {
        s
    }
}

/// The lines of a text, split at each line feed, a carriage return before a
/// line feed removed, and nothing after a final line feed — the shape that
/// `str::lines` yields.
pub open spec fn split_lines(s: Seq<char>) -> Seq<Seq<char>>
    decreases s.len(),
    via split_lines_dec
{
    if s.len() == 0 {
        Seq::empty()
    } else {
        match first_at(s, '\n') {
            None => seq![s],
            Some(i) => seq![strip_cr(s.take(i))] + split_lines(s.skip(i + 1)),
        }
    }
}

#[via_fn]
proof fn split_lines_dec(s: Seq<char>) {
    lemma_first_at(s, '\n');
}


/// Lexicographic order on character sequences, by code point — the order in
/// which `String`s sort.
pub open spec fn lex_le(a: Seq<char>, b: Seq<char>) -> bool
    decreases a.len(),
{
    if a.len() == 0 {
        true
    } else if b.len() == 0 {
        false
    } else if (a[0] as u32) < (b[0] as u32) {
        true
    } else if (a[0] as u32) > (b[0] as u32) {
        false
    } else {
        lex_le(a.drop_first(), b.drop_first())
    }
}

/// Whether the first string sorts at or before the second.
pub fn str_le(a: &str, b: &str) -> (r: bool)
    ensures
        r == lex_le(a@, b@),
{
    let an = a.unicode_len();
    let bn = b.unicode_len();
    let mut i: usize = 0;
    proof {
        assert(a@.skip(0) =~= a@);
        assert(b@.skip(0) =~= b@);
    }
    loop
        invariant
            i <= an,
            i <= bn,
            an == a@.len(),
            bn == b@.len(),
            lex_le(a@, b@) == lex_le(a@.skip(i as int), b@.skip(i as int)),
        decreases an - i,
    {
        if i >= an {
            proof {
                assert(a@.skip(i as int).len() == 0);
            }
            return true;
        }
        if i >= bn {
            proof {
                assert(b@.skip(i as int).len() == 0);
                assert(a@.skip(i as int).len() > 0);
            }
            return false;
        }
        let ca = a.get_char(i);
        let cb = b.get_char(i);
        proof {
            let ta = a@.skip(i as int);
            let tb = b@.skip(i as int);
            assert(ta[0] == a@[i as int]);
            assert(tb[0] == b@[i as int]);
            assert(ta.drop_first() =~= a@.skip(i + 1));
            assert(tb.drop_first() =~= b@.skip(i + 1));
        }
        if (ca as u32) < (cb as u32) {
            return true;
        }
        if (ca as u32) > (cb as u32) {
            return false;
        }
        i = i + 1;
    }
}

/// The views of a sequence of strings.
pub open spec fn strs_view(s: Seq<String>) -> Seq<Seq<char>> {
    s.map_values(|x: String| x@)
}

/// The pieces joined with the separator between each two.
pub open spec fn join_sep(parts: Seq<Seq<char>>, sep: char) -> Seq<char>
    decreases parts.len(),
{
    if parts.len() == 0 {
        Seq::empty()
    } else if parts.len() == 1 {
        parts[0]
    } else {
        join_sep(parts.drop_last(), sep) + seq![sep] + parts.last()
    }
}

/// The strings joined with the separator between each two.
pub fn join_with(parts: &Vec<String>, sep: char) -> (r: String)
    ensures
        r@ == join_sep(strs_view(parts@), sep),
{
    let mut r = String::new();
    let mut i: usize = 0;
    while i < parts.len()
        invariant
            i <= parts.len(),
            r@ == join_sep(strs_view(parts@).take(i as int), sep),
        decreases parts.len() - i,
    {
        if i > 0 {
            push_char(&mut r, sep);
        }
        let mut cs = to_chars(parts[i].as_str());
        let mut j: usize = 0;
        let ghost r_before = r@;
        while j < cs.len()
            invariant
                j <= cs.len(),
                cs@ == parts@[i as int]@,
                i < parts@.len(),
                r@ == r_before + cs@.subrange(0, j as int),
            decreases cs.len() - j,
        {
            push_char(&mut r, cs[j]);
            j = j + 1;
            proof {
                assert(r@ =~= r_before + cs@.subrange(0, j as int));
            }
        }
        proof {
            let vs = strs_view(parts@);
            assert(cs@.subrange(0, cs@.len() as int) =~= cs@);
            assert(vs.take(i + 1).drop_last() =~= vs.take(i as int));
            assert(vs.take(i + 1).last() == vs[i as int]);
            if i == 0 {
                assert(r@ =~= vs.take(1)[0]);
            } else {
                assert(r@ =~= join_sep(vs.take(i as int), sep) + seq![sep] + vs[i as int]);
            }
        }
        i = i + 1;
    }
    proof {
        assert(strs_view(parts@).take(parts@.len() as int) =~= strs_view(parts@));
    }
    r
}

/// Where the element belongs when inserted from the left into the sequence:
/// after every element at or below it, before the first above it.
pub open spec fn insert_sorted(x: Seq<char>, s: Seq<Seq<char>>) -> Seq<Seq<char>>
    decreases s.len(),
{
    if s.len() == 0 {
        seq![x]
    } else if lex_le(s[0], x) {
        seq![s[0]] + insert_sorted(x, s.drop_first())
    } else {
        seq![x] + s
    }
}

/// Sorting by repeated insertion, later elements inserted into the sorted
/// front.
pub open spec fn sort_spec(s: Seq<Seq<char>>) -> Seq<Seq<char>>
    decreases s.len(),
{
    if s.len() == 0 {
        Seq::empty()
    } else {
        insert_sorted(s.last(), sort_spec(s.drop_last()))
    }
}

/// Inserting lands exactly at the first index whose element sorts above the
/// inserted one.
pub proof fn lemma_insert_sorted_at(x: Seq<char>, s: Seq<Seq<char>>, i: int)
    requires
        0 <= i <= s.len(),
        forall|j: int| 0 <= j < i ==> lex_le(s[j], x),
        i < s.len() ==> !lex_le(s[i], x),
    ensures
        insert_sorted(x, s) == s.take(i) + seq![x] + s.skip(i),
    decreases s.len(),
{
    if s.len() == 0 {
        assert(insert_sorted(x, s) =~= s.take(i) + seq![x] + s.skip(i));
    } else if i == 0 {
        assert(!lex_le(s[0], x));
        assert(insert_sorted(x, s) =~= s.take(0) + seq![x] + s.skip(0));
    } else {
        assert(lex_le(s[0], x));
        let t = s.drop_first();
        assert forall|j: int| 0 <= j < i - 1 implies lex_le(t[j], x) by {
            assert(t[j] == s[j + 1]);
        }
        if i - 1 < t.len() {
            assert(t[i - 1] == s[i]);
        }
        lemma_insert_sorted_at(x, t, i - 1);
        assert(insert_sorted(x, s) =~= seq![s[0]] + (t.take(i - 1) + seq![x] + t.skip(i - 1)));
        assert(seq![s[0]] + (t.take(i - 1) + seq![x] + t.skip(i - 1)) =~= s.take(i) + seq![x]
            + s.skip(i));
    }
}

/// The strings rearranged into sorted order, equal keys keeping their
/// relative order.
pub fn sort_strings(v: Vec<String>) -> (r: Vec<String>)
    ensures
        strs_view(r@) == sort_spec(strs_view(v@)),
{
    let mut out: Vec<String> = Vec::new();
    let mut i: usize = 0;
    while i < v.len()
        invariant
            i <= v.len(),
            strs_view(out@) == sort_spec(strs_view(v@).take(i as int)),
        decreases v.len() - i,
    {
        let x = v[i].clone();
        let mut p: usize = 0;
        while p < out.len() && str_le(out[p].as_str(), x.as_str())
            invariant
                p <= out.len(),
                x == v@[i as int],
                i < v@.len(),
                strs_view(out@) == sort_spec(strs_view(v@).take(i as int)),
                forall|j: int| 0 <= j < p ==> lex_le(strs_view(out@)[j], x@),
            decreases out.len() - p,
        {
            p = p + 1;
        }
        out.insert(p, x);
        proof {
            let vs = strs_view(v@);
            let prev = sort_spec(vs.take(i as int));
            lemma_insert_sorted_at(vs[i as int], prev, p as int);
            assert(vs.take(i + 1).drop_last() =~= vs.take(i as int));
            assert(vs.take(i + 1).last() == vs[i as int]);
            assert(strs_view(out@) =~= prev.take(p as int) + seq![vs[i as int]] + prev.skip(
                p as int,
            ));
        }
        i = i + 1;
    }
    proof {
        assert(strs_view(v@).take(v@.len() as int) =~= strs_view(v@));
    }
    out
}


/// Whether the line, after leading whitespace, begins with two slashes.
pub open spec fn is_comment_line(s: Seq<char>) -> bool {
    let t = trim_start_spec(s);
    t.len() >= 2 && t[0] == '/' && t[1] == '/'
}

/// The lines that are not comments, in order.
pub open spec fn keep_lines(ls: Seq<Seq<char>>) -> Seq<Seq<char>>
    decreases ls.len(),
{
    if ls.len() == 0 {
        Seq::empty()
    } else if is_comment_line(ls[0]) {
        keep_lines(ls.drop_first())
    } else {
        seq![ls[0]] + keep_lines(ls.drop_first())
    }
}


/// The characters of the vector between the two bounds.
pub fn subvec(v: &Vec<char>, a: usize, b: usize) -> (r: Vec<char>)
    requires
        a <= b <= v@.len(),
    ensures
        r@ == v@.subrange(a as int, b as int),
{
    let mut r: Vec<char> = Vec::new();
    let mut i: usize = a;
    while i < b
        invariant
            a <= i <= b <= v@.len(),
            r@ == v@.subrange(a as int, i as int),
        decreases b - i,
    {
        r.push(v[i]);
        i = i + 1;
        proof {
            assert(r@ =~= v@.subrange(a as int, i as int));
        }
    }
    r
}


/// Pins `first_at` to a known position: the character is there and nowhere
/// earlier.
pub proof fn lemma_first_at_found(s: Seq<char>, c: char, k: int)
    requires
        0 <= k < s.len(),
        s[k] == c,
        forall|j: int| 0 <= j < k ==> s[j] != c,
    ensures
        first_at(s, c) == Some(k),
{
    lemma_first_at(s, c);
    match first_at(s, c) {
        Some(i) => {
            if i < k {
                assert(s[i] != c);
                assert(false);
            }
            if i > k {
                assert(s[k] != c);
                assert(false);
            }
        },
        None => {
            assert(s[k] != c);
            assert(false);
        },
    }
}

/// Pins `first_at` to no position: the character is nowhere in the
/// sequence.
pub proof fn lemma_first_at_none(s: Seq<char>, c: char)
    requires
        forall|j: int| 0 <= j < s.len() ==> s[j] != c,
    ensures
        first_at(s, c) is None,
{
    lemma_first_at(s, c);
    match first_at(s, c) {
        Some(i) => {
            assert(s[i] != c);
            assert(false);
        },
        None => {},
    }
}

} // verus!
