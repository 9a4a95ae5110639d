use vstd::prelude::*;
use crate::errors::HffError;
use crate::registry::Registry;
use crate::text::{
    chars_to_string, char_is_ws, find_from, first_at, is_comment_line, is_ws, join_sep,
    join_with, keep_lines, lemma_first_at, lemma_first_at_found, lemma_first_at_none,
    lemma_ws_prefix, sort_spec, sort_strings, split_char_spec, split_lines, strip_cr, strs_view,
    subvec, to_chars, trim_chars, trim_end_spec, trim_spec, trim_start_spec, ws_prefix_len,
    ws_suffix_len,
};

verus! {

/// Whether a (trimmed) line is shaped as a signature declaration: a hash, an
/// opening bracket, free content without a line feed, a closing bracket.
pub open spec fn is_sig_line(s: Seq<char>) -> bool {
    &&& s.len() >= 3
    &&& s[0] == '#'
    &&& s[1] == '['
    &&& s[s.len() - 1] == ']'
    &&& first_at(s.subrange(2, s.len() - 1), '\n') is None
}

/// Each piece trimmed of surrounding whitespace.
pub open spec fn trim_all(s: Seq<Seq<char>>) -> Seq<Seq<char>> {
    s.map_values(|p: Seq<char>| trim_spec(p))
}

/// The field names a signature declaration lists: the bracket content split
/// on commas, each piece trimmed.
pub open spec fn sig_fields(s: Seq<char>) -> Seq<Seq<char>> {
    trim_all(split_char_spec(s.subrange(2, s.len() - 1), ','))
}

/// The canonical signature of a list of field names: the names sorted and
/// joined with a bar.
pub open spec fn canon_sig(names: Seq<Seq<char>>) -> Seq<char> {
    join_sep(sort_spec(names), '|')
}

/// The registry a line list yields, folded onto rules already gathered: two
/// lines per rule, a later rule overwriting an earlier one under the same
/// signature, a lone trailing line or a misshapen declaration aborting.
pub open spec fn build_registry_from(
    lines: Seq<Seq<char>>,
    acc: Map<Seq<char>, Seq<char>>,
) -> Result<Map<Seq<char>, Seq<char>>, HffError>
    decreases lines.len(),
{
    if lines.len() == 0 {
        Ok(acc)
    } else if lines.len() == 1 {
        Err(HffError::RuleSourceFormat)
    } else if is_sig_line(trim_spec(lines[0])) {
        build_registry_from(
            lines.skip(2),
            acc.insert(canon_sig(sig_fields(trim_spec(lines[0]))), trim_spec(lines[1])),
        )
    } else {
        Err(HffError::SignatureFormat)
    }
}

/// The registry a line list yields, starting from no rules.
pub open spec fn build_registry(lines: Seq<Seq<char>>) -> Result<
    Map<Seq<char>, Seq<char>>,
    HffError,
> {
    build_registry_from(lines, Map::empty())
}

/// The significant lines of a rule source: its lines with the comment lines
/// removed.
pub open spec fn mapping_lines(s: Seq<char>) -> Seq<Seq<char>> {
    keep_lines(split_lines(s))
}

/// The field names of a signature declaration, or the declaration error.
fn parse_signature(input: &str) -> (r: Result<Vec<String>, HffError>)
    ensures
        is_sig_line(input@) <==> r is Ok,
        r matches Ok(v) ==> strs_view(v@) == sig_fields(input@),
        r matches Err(e) ==> e == HffError::SignatureFormat,
{
    let cv = to_chars(input);
    let n = cv.len();
    if n < 3 || cv[0] != '#' || cv[1] != '[' || cv[n - 1] != ']' {
        return Err(HffError::SignatureFormat);
    }
    let mut i: usize = 2;
    while i < n - 1
        invariant
            2 <= i <= n - 1,
            n == cv@.len(),
            3 <= n,
            cv@ == input@,
            cv@[0] == '#',
            cv@[1] == '[',
            cv@[n - 1] == ']',
            forall|j: int| 2 <= j < i ==> cv@[j] != '\n',
        decreases n - 1 - i,
    {
        if cv[i] == '\n' {
            proof {
                let interior = cv@.subrange(2, n - 1);
                lemma_first_at(interior, '\n');
                if first_at(interior, '\n') is None {
                    assert(interior[i - 2] == cv@[i as int]);
                    assert(false);
                }
            }
            return Err(HffError::SignatureFormat);
        }
        i = i + 1;
    }
    proof {
        let interior = cv@.subrange(2, n - 1);
        lemma_first_at(interior, '\n');
        match first_at(interior, '\n') {
            Some(k) => {
                assert(interior[k] == '\n');
                assert(interior[k] == cv@[k + 2]);
                assert(false);
            },
            None => {},
        }
    }
    let interior = subvec(&cv, 2, n - 1);
    let pieces = split_vec(&interior, ',');
    let mut out: Vec<String> = Vec::new();
    let ghost spec_pieces = split_char_spec(interior@, ',');
    let mut k: usize = 0;
    while k < pieces.len()
        invariant
            k <= pieces@.len(),
            vecs_view(pieces@) == spec_pieces,
            strs_view(out@) == trim_all(spec_pieces).take(k as int),
        decreases pieces.len() - k,
    {
        let trimmed = trim_chars(&pieces[k]);
        let ghost out_before = out@;
        out.push(chars_to_string(&trimmed));
        k = k + 1;
        proof {
            let m2 = trim_all(spec_pieces);
            assert(spec_pieces[k - 1] == pieces@[k - 1]@);
            assert(m2[k - 1] == trim_spec(pieces@[k - 1]@));
            assert(out@ == out_before.push(out@.last()));
            assert(out@.last()@ == m2[k - 1]);
            assert(strs_view(out@) =~= strs_view(out_before).push(out@.last()@));
            assert(m2.take(k as int) =~= m2.take(k - 1).push(m2[k - 1]));
            assert(strs_view(out@) =~= m2.take(k as int));
        }
    }
    proof {
        let m = trim_all(spec_pieces);
        assert(m.take(m.len() as int) =~= m);
        assert(interior@ =~= input@.subrange(2, input@.len() - 1));
    }
    Ok(out)
}

/// The views of a sequence of character vectors.
pub open spec fn vecs_view(s: Seq<Vec<char>>) -> Seq<Seq<char>> {
    s.map_values(|x: Vec<char>| x@)
}

/// The pieces of the vector between occurrences of the separator.
fn split_vec(v: &Vec<char>, c: char) -> (r: Vec<Vec<char>>)
    ensures
        vecs_view(r@) == split_char_spec(v@, c),
{
    let n = v.len();
    let mut out: Vec<Vec<char>> = Vec::new();
    let mut pos: usize = 0;
    proof {
        assert(v@.skip(0) =~= v@);
    }
    loop
        invariant
            pos <= v@.len(),
            n == v@.len(),
            vecs_view(out@) + split_char_spec(v@.skip(pos as int), c) == split_char_spec(v@, c),
        decreases v@.len() - pos,
    {
        match find_from(v, c, pos) {
            Some(j) => {
                let piece = subvec(v, pos, j);
                out.push(piece);
                proof {
                    let t = v@.skip(pos as int);
                    assert(t.take(j - pos) =~= v@.subrange(pos as int, j as int));
                    assert(t.skip(j - pos + 1) =~= v@.skip(j + 1));
                    assert(vecs_view(out@) =~= vecs_view(out@.drop_last()) + seq![
                        v@.subrange(pos as int, j as int),
                    ]);
                    assert(vecs_view(out@) + split_char_spec(v@.skip(j + 1), c) =~= vecs_view(
                        out@.drop_last(),
                    ) + split_char_spec(t, c));
                }
                pos = j + 1;
            },
            None => {
                let piece = subvec(v, pos, v.len());
                out.push(piece);
                proof {
                    let t = v@.skip(pos as int);
                    assert(t =~= v@.subrange(pos as int, v@.len() as int));
                    assert(split_char_spec(t, c) == seq![t]);
                    assert(vecs_view(out@) =~= vecs_view(out@.drop_last()) + seq![t]);
                    assert(vecs_view(out@) =~= split_char_spec(v@, c));
                }
                return out;
            },
        }
    }
}

/// Whether the line's first two characters after leading whitespace are both
/// slashes.
fn is_comment(piece: &Vec<char>) -> (b: bool)
    ensures
        b == is_comment_line(piece@),
{
    proof {
        lemma_ws_prefix(piece@);
    }
    let n = piece.len();
    let mut i: usize = 0;
    while i < n && char_is_ws(piece[i])
        invariant
            i <= n,
            n == piece@.len(),
            forall|j: int| 0 <= j < i ==> is_ws(piece@[j]),
        decreases n - i,
    {
        i = i + 1;
    }
    proof {
        lemma_ws_prefix(piece@);
        let p = ws_prefix_len(piece@);
        if i < p {
            assert(is_ws(piece@[i as int]));
            assert(false);
        }
        if p < i {
            assert(is_ws(piece@[p]));
            assert(false);
        }
        assert(trim_start_spec(piece@) =~= piece@.skip(i as int));
    }
    if n - i >= 2 {
        piece[i] == '/' && piece[i + 1] == '/'
    } else {
        false
    }
}

/// The significant lines of a rule source given as text: the comment lines
/// are dropped; reading text never fails.
pub fn load_mapping_from_str(mapping_str: &str) -> (r: Result<Vec<String>, HffError>)
    ensures
        r matches Ok(v) && strs_view(v@) == mapping_lines(mapping_str@),
{
    let cv = to_chars(mapping_str);
    let n = cv.len();
    let mut out: Vec<String> = Vec::new();
    let mut pos: usize = 0;
    proof {
        assert(cv@.skip(0) =~= cv@);
    }
    loop
        invariant
            pos <= n,
            n == cv@.len(),
            cv@ == mapping_str@,
            strs_view(out@) + keep_lines(split_lines(cv@.skip(pos as int))) == mapping_lines(
                cv@,
            ),
        decreases n - pos + 1,
    {
        if pos >= n {
            proof {
                assert(split_lines(cv@.skip(pos as int)) =~= Seq::<Seq<char>>::empty());
                assert(strs_view(out@) =~= mapping_lines(cv@));
            }
            return Ok(out);
        }
        let ghost t = cv@.skip(pos as int);
        let mut piece: Vec<char>;
        let next_pos: usize;
        match find_from(&cv, '\n', pos) {
            Some(j) => {
                piece = subvec(&cv, pos, j);
                if piece.len() > 0 && piece[piece.len() - 1] == '\r' {
                    piece.pop();
                }
                next_pos = j + 1;
                proof {
                    assert(t.take(j - pos) =~= cv@.subrange(pos as int, j as int));
                    assert(piece@ =~= strip_cr(t.take(j - pos)));
                    assert(t.skip(j - pos + 1) =~= cv@.skip(j + 1));
                    assert(split_lines(t) =~= seq![piece@] + split_lines(cv@.skip(j + 1)));
                }
            },
            None => {
                piece = subvec(&cv, pos, n);
                next_pos = n;
                proof {
                    assert(t =~= cv@.subrange(pos as int, n as int));
                    assert(t.len() > 0);
                    assert(split_lines(t) =~= seq![piece@] + split_lines(cv@.skip(n as int)));
                    assert(split_lines(cv@.skip(n as int)) =~= Seq::<Seq<char>>::empty());
                }
            },
        }
        proof {
            let rest = split_lines(cv@.skip(next_pos as int));
            assert((seq![piece@] + rest).drop_first() =~= rest);
            assert((seq![piece@] + rest)[0] == piece@);
        }
        if !is_comment(&piece) {
            out.push(chars_to_string(&piece));
            proof {
                assert(strs_view(out@) =~= strs_view(out@.drop_last()) + seq![piece@]);
                assert(strs_view(out@) + keep_lines(
                    split_lines(cv@.skip(next_pos as int)),
                ) =~= mapping_lines(cv@));
            }
        }
        pos = next_pos;
    }
}


/// The canonical signature text of a field-name list: sorted and joined
/// with a bar, declaration order irrelevant.
pub fn signature_to_str(signature: Vec<String>) -> (r: String)
    ensures
        r@ == canon_sig(strs_view(signature@)),
{
    let sorted_signature = sort_strings(signature);
    join_with(&sorted_signature, '|')
}

/// The rule source compiled into the library.
pub fn default_mapping() -> (r: &'static str)
    ensures
        r@ == default_mapping_text(),
{
    "// Rules for condensing common coded substructures.\n// Two lines each: a field signature, then a template.\n// Placeholders use plain paths: filter and slice steps render as empty.\n#[system, code]\n{$.code} ({$.system})\n#[system, code, display]\n{$.display}\n#[code, display, system, version]\n{$.display}\n#[system, value]\n{$.value} | {$.system}\n#[code, system, unit, value]\n{$.value} {$.unit}\n#[family, given]\n{$.given} {$.family}\n"
}

/// The text `default_mapping` answers.
pub open spec fn default_mapping_text() -> Seq<char> {
    "// Rules for condensing common coded substructures.\n// Two lines each: a field signature, then a template.\n// Placeholders use plain paths: filter and slice steps render as empty.\n#[system, code]\n{$.code} ({$.system})\n#[system, code, display]\n{$.display}\n#[code, display, system, version]\n{$.display}\n#[system, value]\n{$.value} | {$.system}\n#[code, system, unit, value]\n{$.value} {$.unit}\n#[family, given]\n{$.given} {$.family}\n"@
}

/// The significant lines of the compiled-in rule source.
pub fn load_default_mapping() -> (r: Result<Vec<String>, HffError>)
    ensures
        r matches Ok(v) && strs_view(v@) == mapping_lines(default_mapping_text()),
{
    load_mapping_from_str(default_mapping())
}

/// The registry the line list declares: lines paired two at a time, each
/// pair a signature declaration and a template. The error says whether a
/// declaration was misshapen or a line was left unpaired.
pub fn process_mapping(mapping: &Vec<String>) -> (r: Result<Registry, HffError>)
    ensures
        match build_registry(strs_view(mapping@)) {
            Ok(m) => r matches Ok(reg) && reg@ == m,
            Err(e) => r matches Err(e2) && e2 == e,
        },
{
    let n = mapping.len();
    let mut reg = Registry::new();
    let mut i: usize = 0;
    proof {
        assert(strs_view(mapping@).skip(0) =~= strs_view(mapping@));
    }
    while n - i >= 2
        invariant
            i <= n,
            n == mapping@.len(),
            build_registry_from(strs_view(mapping@).skip(i as int), reg@) == build_registry(
                strs_view(mapping@),
            ),
        decreases n - i,
    {
        let ghost rest = strs_view(mapping@).skip(i as int);
        let trimmed_sig = chars_to_string(&trim_chars(&to_chars(mapping[i].as_str())));
        proof {
            assert(rest[0] == mapping@[i as int]@);
            assert(rest[1] == mapping@[i + 1]@);
            assert(rest.skip(2) =~= strs_view(mapping@).skip(i + 2));
        }
        match parse_signature(trimmed_sig.as_str()) {
            Ok(parsed_signature) => {
                let key = signature_to_str(parsed_signature);
                let tmpl = chars_to_string(&trim_chars(&to_chars(mapping[i + 1].as_str())));
                reg.insert(key, tmpl);
            },
            Err(_) => {
                return Err(HffError::SignatureFormat);
            },
        }
        i = i + 2;
    }
    if i == n {
        return Ok(reg);
    }
    Err(HffError::RuleSourceFormat)
}


/// No line survives comment stripping when every line is a comment.
proof fn lemma_keep_lines_all_comments(ls: Seq<Seq<char>>)
    requires
        forall|i: int| 0 <= i < ls.len() ==> is_comment_line(ls[i]),
    ensures
        keep_lines(ls) == Seq::<Seq<char>>::empty(),
    decreases ls.len(),
{
    if ls.len() > 0 {
        assert(is_comment_line(ls[0]));
        assert(forall|i: int| 0 <= i < ls.len() - 1 ==> ls.drop_first()[i] == ls[i + 1]);
        lemma_keep_lines_all_comments(ls.drop_first());
    }
}

/// A rule source holding only comment lines, or nothing at all, yields the
/// empty registry.
pub proof fn lemma_comments_only_empty_registry(src: Seq<char>)
    requires
        forall|i: int|
            0 <= i < split_lines(src).len() ==> is_comment_line(split_lines(src)[i]),
    ensures
        build_registry(mapping_lines(src)) == Ok::<Map<Seq<char>, Seq<char>>, HffError>(
            Map::empty(),
        ),
{
    lemma_keep_lines_all_comments(split_lines(src));
}

/// Folding an odd number of lines fails whatever rules were gathered.
proof fn lemma_build_from_odd(lines: Seq<Seq<char>>, acc: Map<Seq<char>, Seq<char>>)
    requires
        lines.len() % 2 == 1,
    ensures
        build_registry_from(lines, acc) is Err,
    decreases lines.len(),
{
    if lines.len() > 1 && is_sig_line(trim_spec(lines[0])) {
        lemma_build_from_odd(
            lines.skip(2),
            acc.insert(canon_sig(sig_fields(trim_spec(lines[0]))), trim_spec(lines[1])),
        );
    }
}

/// A line list odd in length fails registry construction with a format
/// error: the trailing line is never dropped in silence.
pub proof fn lemma_odd_lines_fail(lines: Seq<Seq<char>>)
    requires
        lines.len() % 2 == 1,
    ensures
        build_registry(lines) is Err,
{
    lemma_build_from_odd(lines, Map::empty());
}



/// Folding succeeds on the same line lists whatever rules were gathered.
proof fn lemma_build_from_ok(lines: Seq<Seq<char>>, acc: Map<Seq<char>, Seq<char>>)
    ensures
        build_registry_from(lines, acc) is Ok <==> (lines.len() % 2 == 0 && (forall|i: int|
            0 <= i < lines.len() && i % 2 == 0 ==> is_sig_line(trim_spec(lines[i])))),
    decreases lines.len(),
{
    if lines.len() >= 2 {
        if is_sig_line(trim_spec(lines[0])) {
            let rest = lines.skip(2);
            let acc2 = acc.insert(canon_sig(sig_fields(trim_spec(lines[0]))), trim_spec(lines[1]));
            lemma_build_from_ok(rest, acc2);
            assert(forall|i: int| 0 <= i < rest.len() ==> rest[i] == lines[i + 2]);
            if rest.len() % 2 == 0 && (forall|i: int|
                0 <= i < rest.len() && i % 2 == 0 ==> is_sig_line(trim_spec(rest[i]))) {
                assert forall|i: int|
                    0 <= i < lines.len() && i % 2 == 0 implies is_sig_line(
                    trim_spec(lines[i]),
                ) by {
                    if i >= 2 {
                        assert(rest[i - 2] == lines[i]);
                    }
                }
            }
            if lines.len() % 2 == 0 && (forall|i: int|
                0 <= i < lines.len() && i % 2 == 0 ==> is_sig_line(trim_spec(lines[i]))) {
                assert forall|i: int|
                    0 <= i < rest.len() && i % 2 == 0 implies is_sig_line(
                    trim_spec(rest[i]),
                ) by {
                    assert(rest[i] == lines[i + 2]);
                }
            }
        }
    }
}

/// Registry construction succeeds exactly on line lists of even length in
/// which the first line of each pair, trimmed, is a well-formed signature
/// declaration — so a well-formed rule source is never refused.
pub proof fn lemma_build_registry_ok(lines: Seq<Seq<char>>)
    ensures
        build_registry(lines) is Ok <==> (lines.len() % 2 == 0 && (forall|i: int|
            0 <= i < lines.len() && i % 2 == 0 ==> is_sig_line(trim_spec(lines[i])))),
{
    lemma_build_from_ok(lines, Map::empty());
}


/// The lines of the compiled-in source, comments and rules alike, in order.
spec fn default_line_seq() -> Seq<Seq<char>> {
    seq![
        "// Rules for condensing common coded substructures."@,
        "// Two lines each: a field signature, then a template."@,
        "// Placeholders use plain paths: filter and slice steps render as empty."@,
        "#[system, code]"@,
        "{$.code} ({$.system})"@,
        "#[system, code, display]"@,
        "{$.display}"@,
        "#[code, display, system, version]"@,
        "{$.display}"@,
        "#[system, value]"@,
        "{$.value} | {$.system}"@,
        "#[code, system, unit, value]"@,
        "{$.value} {$.unit}"@,
        "#[family, given]"@,
        "{$.given} {$.family}"@,
    ]
}

#[verifier::rlimit(100)]
proof fn lemma_default_split_a()
    ensures
        split_lines(default_mapping_text().skip(0)) =~~= seq![
            "// Rules for condensing common coded substructures."@,
            "// Two lines each: a field signature, then a template."@,
            "// Placeholders use plain paths: filter and slice steps render as empty."@,
            "#[system, code]"@,
            "{$.code} ({$.system})"@,
        ] + split_lines(default_mapping_text().skip(218)),
{
    reveal_strlit("// Rules for condensing common coded substructures.\n// Two lines each: a field signature, then a template.\n// Placeholders use plain paths: filter and slice steps render as empty.\n#[system, code]\n{$.code} ({$.system})\n#[system, code, display]\n{$.display}\n#[code, display, system, version]\n{$.display}\n#[system, value]\n{$.value} | {$.system}\n#[code, system, unit, value]\n{$.value} {$.unit}\n#[family, given]\n{$.given} {$.family}\n");
    reveal_strlit("// Rules for condensing common coded substructures.");
    reveal_strlit("// Two lines each: a field signature, then a template.");
    reveal_strlit("// Placeholders use plain paths: filter and slice steps render as empty.");
    reveal_strlit("#[system, code]");
    reveal_strlit("{$.code} ({$.system})");
    let t = default_mapping_text();
    assert(t.len() == 427);
    let s0 = t.skip(0);
    assert(s0.len() == 427);
    assert(s0[51] == '\n');
    assert(forall|j: int| 0 <= j < 51 ==> s0[j] != '\n');
    lemma_first_at_found(s0, '\n', 51);
    assert(split_lines(s0) == seq![strip_cr(s0.take(51))] + split_lines(s0.skip(52)));
    assert(s0.take(51) =~= "// Rules for condensing common coded substructures."@);
    assert(s0.take(51).last() != '\r');
    assert(strip_cr(s0.take(51)) == "// Rules for condensing common coded substructures."@);
    assert(s0.skip(52) =~= t.skip(52));
    let s1 = t.skip(52);
    assert(s1.len() == 375);
    assert(s1[54] == '\n');
    assert(forall|j: int| 0 <= j < 54 ==> s1[j] != '\n');
    lemma_first_at_found(s1, '\n', 54);
    assert(split_lines(s1) == seq![strip_cr(s1.take(54))] + split_lines(s1.skip(55)));
    assert(s1.take(54) =~= "// Two lines each: a field signature, then a template."@);
    assert(s1.take(54).last() != '\r');
    assert(strip_cr(s1.take(54)) == "// Two lines each: a field signature, then a template."@);
    assert(s1.skip(55) =~= t.skip(107));
    let s2 = t.skip(107);
    assert(s2.len() == 320);
    assert(s2[72] == '\n');
    assert(forall|j: int| 0 <= j < 72 ==> s2[j] != '\n');
    lemma_first_at_found(s2, '\n', 72);
    assert(split_lines(s2) == seq![strip_cr(s2.take(72))] + split_lines(s2.skip(73)));
    assert(s2.take(72) =~= "// Placeholders use plain paths: filter and slice steps render as empty."@);
    assert(s2.take(72).last() != '\r');
    assert(strip_cr(s2.take(72)) == "// Placeholders use plain paths: filter and slice steps render as empty."@);
    assert(s2.skip(73) =~= t.skip(180));
    let s3 = t.skip(180);
    assert(s3.len() == 247);
    assert(s3[15] == '\n');
    assert(forall|j: int| 0 <= j < 15 ==> s3[j] != '\n');
    lemma_first_at_found(s3, '\n', 15);
    assert(split_lines(s3) == seq![strip_cr(s3.take(15))] + split_lines(s3.skip(16)));
    assert(s3.take(15) =~= "#[system, code]"@);
    assert(s3.take(15).last() != '\r');
    assert(strip_cr(s3.take(15)) == "#[system, code]"@);
    assert(s3.skip(16) =~= t.skip(196));
    let s4 = t.skip(196);
    assert(s4.len() == 231);
    assert(s4[21] == '\n');
    assert(forall|j: int| 0 <= j < 21 ==> s4[j] != '\n');
    lemma_first_at_found(s4, '\n', 21);
    assert(split_lines(s4) == seq![strip_cr(s4.take(21))] + split_lines(s4.skip(22)));
    assert(s4.take(21) =~= "{$.code} ({$.system})"@);
    assert(s4.take(21).last() != '\r');
    assert(strip_cr(s4.take(21)) == "{$.code} ({$.system})"@);
    assert(s4.skip(22) =~= t.skip(218));
}

#[verifier::rlimit(100)]
proof fn lemma_default_split_b()
    ensures
        split_lines(default_mapping_text().skip(218)) =~~= seq![
            "#[system, code, display]"@,
            "{$.display}"@,
            "#[code, display, system, version]"@,
            "{$.display}"@,
            "#[system, value]"@,
        ] + split_lines(default_mapping_text().skip(318)),
{
    reveal_strlit("// Rules for condensing common coded substructures.\n// Two lines each: a field signature, then a template.\n// Placeholders use plain paths: filter and slice steps render as empty.\n#[system, code]\n{$.code} ({$.system})\n#[system, code, display]\n{$.display}\n#[code, display, system, version]\n{$.display}\n#[system, value]\n{$.value} | {$.system}\n#[code, system, unit, value]\n{$.value} {$.unit}\n#[family, given]\n{$.given} {$.family}\n");
    reveal_strlit("#[system, code, display]");
    reveal_strlit("{$.display}");
    reveal_strlit("#[code, display, system, version]");
    reveal_strlit("{$.display}");
    reveal_strlit("#[system, value]");
    let t = default_mapping_text();
    assert(t.len() == 427);
    let s5 = t.skip(218);
    assert(s5.len() == 209);
    assert(s5[24] == '\n');
    assert(forall|j: int| 0 <= j < 24 ==> s5[j] != '\n');
    lemma_first_at_found(s5, '\n', 24);
    assert(split_lines(s5) == seq![strip_cr(s5.take(24))] + split_lines(s5.skip(25)));
    assert(s5.take(24) =~= "#[system, code, display]"@);
    assert(s5.take(24).last() != '\r');
    assert(strip_cr(s5.take(24)) == "#[system, code, display]"@);
    assert(s5.skip(25) =~= t.skip(243));
    let s6 = t.skip(243);
    assert(s6.len() == 184);
    assert(s6[11] == '\n');
    assert(forall|j: int| 0 <= j < 11 ==> s6[j] != '\n');
    lemma_first_at_found(s6, '\n', 11);
    assert(split_lines(s6) == seq![strip_cr(s6.take(11))] + split_lines(s6.skip(12)));
    assert(s6.take(11) =~= "{$.display}"@);
    assert(s6.take(11).last() != '\r');
    assert(strip_cr(s6.take(11)) == "{$.display}"@);
    assert(s6.skip(12) =~= t.skip(255));
    let s7 = t.skip(255);
    assert(s7.len() == 172);
    assert(s7[33] == '\n');
    assert(forall|j: int| 0 <= j < 33 ==> s7[j] != '\n');
    lemma_first_at_found(s7, '\n', 33);
    assert(split_lines(s7) == seq![strip_cr(s7.take(33))] + split_lines(s7.skip(34)));
    assert(s7.take(33) =~= "#[code, display, system, version]"@);
    assert(s7.take(33).last() != '\r');
    assert(strip_cr(s7.take(33)) == "#[code, display, system, version]"@);
    assert(s7.skip(34) =~= t.skip(289));
    let s8 = t.skip(289);
    assert(s8.len() == 138);
    assert(s8[11] == '\n');
    assert(forall|j: int| 0 <= j < 11 ==> s8[j] != '\n');
    lemma_first_at_found(s8, '\n', 11);
    assert(split_lines(s8) == seq![strip_cr(s8.take(11))] + split_lines(s8.skip(12)));
    assert(s8.take(11) =~= "{$.display}"@);
    assert(s8.take(11).last() != '\r');
    assert(strip_cr(s8.take(11)) == "{$.display}"@);
    assert(s8.skip(12) =~= t.skip(301));
    let s9 = t.skip(301);
    assert(s9.len() == 126);
    assert(s9[16] == '\n');
    assert(forall|j: int| 0 <= j < 16 ==> s9[j] != '\n');
    lemma_first_at_found(s9, '\n', 16);
    assert(split_lines(s9) == seq![strip_cr(s9.take(16))] + split_lines(s9.skip(17)));
    assert(s9.take(16) =~= "#[system, value]"@);
    assert(s9.take(16).last() != '\r');
    assert(strip_cr(s9.take(16)) == "#[system, value]"@);
    assert(s9.skip(17) =~= t.skip(318));
}

#[verifier::rlimit(100)]
proof fn lemma_default_split_c()
    ensures
        split_lines(default_mapping_text().skip(318)) =~~= seq![
            "{$.value} | {$.system}"@,
            "#[code, system, unit, value]"@,
            "{$.value} {$.unit}"@,
            "#[family, given]"@,
            "{$.given} {$.family}"@,
        ] + split_lines(default_mapping_text().skip(427)),
{
    reveal_strlit("// Rules for condensing common coded substructures.\n// Two lines each: a field signature, then a template.\n// Placeholders use plain paths: filter and slice steps render as empty.\n#[system, code]\n{$.code} ({$.system})\n#[system, code, display]\n{$.display}\n#[code, display, system, version]\n{$.display}\n#[system, value]\n{$.value} | {$.system}\n#[code, system, unit, value]\n{$.value} {$.unit}\n#[family, given]\n{$.given} {$.family}\n");
    reveal_strlit("{$.value} | {$.system}");
    reveal_strlit("#[code, system, unit, value]");
    reveal_strlit("{$.value} {$.unit}");
    reveal_strlit("#[family, given]");
    reveal_strlit("{$.given} {$.family}");
    let t = default_mapping_text();
    assert(t.len() == 427);
    let s10 = t.skip(318);
    assert(s10.len() == 109);
    assert(s10[22] == '\n');
    assert(forall|j: int| 0 <= j < 22 ==> s10[j] != '\n');
    lemma_first_at_found(s10, '\n', 22);
    assert(split_lines(s10) == seq![strip_cr(s10.take(22))] + split_lines(s10.skip(23)));
    assert(s10.take(22) =~= "{$.value} | {$.system}"@);
    assert(s10.take(22).last() != '\r');
    assert(strip_cr(s10.take(22)) == "{$.value} | {$.system}"@);
    assert(s10.skip(23) =~= t.skip(341));
    let s11 = t.skip(341);
    assert(s11.len() == 86);
    assert(s11[28] == '\n');
    assert(forall|j: int| 0 <= j < 28 ==> s11[j] != '\n');
    lemma_first_at_found(s11, '\n', 28);
    assert(split_lines(s11) == seq![strip_cr(s11.take(28))] + split_lines(s11.skip(29)));
    assert(s11.take(28) =~= "#[code, system, unit, value]"@);
    assert(s11.take(28).last() != '\r');
    assert(strip_cr(s11.take(28)) == "#[code, system, unit, value]"@);
    assert(s11.skip(29) =~= t.skip(370));
    let s12 = t.skip(370);
    assert(s12.len() == 57);
    assert(s12[18] == '\n');
    assert(forall|j: int| 0 <= j < 18 ==> s12[j] != '\n');
    lemma_first_at_found(s12, '\n', 18);
    assert(split_lines(s12) == seq![strip_cr(s12.take(18))] + split_lines(s12.skip(19)));
    assert(s12.take(18) =~= "{$.value} {$.unit}"@);
    assert(s12.take(18).last() != '\r');
    assert(strip_cr(s12.take(18)) == "{$.value} {$.unit}"@);
    assert(s12.skip(19) =~= t.skip(389));
    let s13 = t.skip(389);
    assert(s13.len() == 38);
    assert(s13[16] == '\n');
    assert(forall|j: int| 0 <= j < 16 ==> s13[j] != '\n');
    lemma_first_at_found(s13, '\n', 16);
    assert(split_lines(s13) == seq![strip_cr(s13.take(16))] + split_lines(s13.skip(17)));
    assert(s13.take(16) =~= "#[family, given]"@);
    assert(s13.take(16).last() != '\r');
    assert(strip_cr(s13.take(16)) == "#[family, given]"@);
    assert(s13.skip(17) =~= t.skip(406));
    let s14 = t.skip(406);
    assert(s14.len() == 21);
    assert(s14[20] == '\n');
    assert(forall|j: int| 0 <= j < 20 ==> s14[j] != '\n');
    lemma_first_at_found(s14, '\n', 20);
    assert(split_lines(s14) == seq![strip_cr(s14.take(20))] + split_lines(s14.skip(21)));
    assert(s14.take(20) =~= "{$.given} {$.family}"@);
    assert(s14.take(20).last() != '\r');
    assert(strip_cr(s14.take(20)) == "{$.given} {$.family}"@);
    assert(s14.skip(21) =~= t.skip(427));
}

/// The compiled-in source splits into exactly its fifteen lines.
proof fn lemma_default_split()
    ensures
        split_lines(default_mapping_text()) =~~= default_line_seq(),
{
    let t = default_mapping_text();
    reveal_strlit("// Rules for condensing common coded substructures.\n// Two lines each: a field signature, then a template.\n// Placeholders use plain paths: filter and slice steps render as empty.\n#[system, code]\n{$.code} ({$.system})\n#[system, code, display]\n{$.display}\n#[code, display, system, version]\n{$.display}\n#[system, value]\n{$.value} | {$.system}\n#[code, system, unit, value]\n{$.value} {$.unit}\n#[family, given]\n{$.given} {$.family}\n");
    assert(t.len() == 427);
    assert(t.skip(0) =~= t);
    lemma_default_split_a();
    lemma_default_split_b();
    lemma_default_split_c();
    assert(t.skip(427).len() == 0);
    assert(split_lines(t.skip(427)) =~~= Seq::<Seq<char>>::empty());
    assert(split_lines(t) =~~= default_line_seq());
}


/// The significant lines of the compiled-in source: its rules, two lines
/// each, comments dropped.
spec fn default_sig_seq() -> Seq<Seq<char>> {
    seq![
        "#[system, code]"@,
        "{$.code} ({$.system})"@,
        "#[system, code, display]"@,
        "{$.display}"@,
        "#[code, display, system, version]"@,
        "{$.display}"@,
        "#[system, value]"@,
        "{$.value} | {$.system}"@,
        "#[code, system, unit, value]"@,
        "{$.value} {$.unit}"@,
        "#[family, given]"@,
        "{$.given} {$.family}"@,
    ]
}

#[verifier::rlimit(100)]
proof fn lemma_default_keep()
    ensures
        keep_lines(default_line_seq()) =~~= default_sig_seq(),
{
    reveal_strlit("// Rules for condensing common coded substructures.");
    reveal_strlit("// Two lines each: a field signature, then a template.");
    reveal_strlit("// Placeholders use plain paths: filter and slice steps render as empty.");
    reveal_strlit("#[system, code]");
    reveal_strlit("{$.code} ({$.system})");
    reveal_strlit("#[system, code, display]");
    reveal_strlit("{$.display}");
    reveal_strlit("#[code, display, system, version]");
    reveal_strlit("#[system, value]");
    reveal_strlit("{$.value} | {$.system}");
    reveal_strlit("#[code, system, unit, value]");
    reveal_strlit("{$.value} {$.unit}");
    reveal_strlit("#[family, given]");
    reveal_strlit("{$.given} {$.family}");
    let ghost ls0: Seq<Seq<char>> = seq!["// Rules for condensing common coded substructures."@, "// Two lines each: a field signature, then a template."@, "// Placeholders use plain paths: filter and slice steps render as empty."@, "#[system, code]"@, "{$.code} ({$.system})"@, "#[system, code, display]"@, "{$.display}"@, "#[code, display, system, version]"@, "{$.display}"@, "#[system, value]"@, "{$.value} | {$.system}"@, "#[code, system, unit, value]"@, "{$.value} {$.unit}"@, "#[family, given]"@, "{$.given} {$.family}"@];
    let ghost ls1: Seq<Seq<char>> = seq!["// Two lines each: a field signature, then a template."@, "// Placeholders use plain paths: filter and slice steps render as empty."@, "#[system, code]"@, "{$.code} ({$.system})"@, "#[system, code, display]"@, "{$.display}"@, "#[code, display, system, version]"@, "{$.display}"@, "#[system, value]"@, "{$.value} | {$.system}"@, "#[code, system, unit, value]"@, "{$.value} {$.unit}"@, "#[family, given]"@, "{$.given} {$.family}"@];
    let ghost ls2: Seq<Seq<char>> = seq!["// Placeholders use plain paths: filter and slice steps render as empty."@, "#[system, code]"@, "{$.code} ({$.system})"@, "#[system, code, display]"@, "{$.display}"@, "#[code, display, system, version]"@, "{$.display}"@, "#[system, value]"@, "{$.value} | {$.system}"@, "#[code, system, unit, value]"@, "{$.value} {$.unit}"@, "#[family, given]"@, "{$.given} {$.family}"@];
    let ghost ls3: Seq<Seq<char>> = seq!["#[system, code]"@, "{$.code} ({$.system})"@, "#[system, code, display]"@, "{$.display}"@, "#[code, display, system, version]"@, "{$.display}"@, "#[system, value]"@, "{$.value} | {$.system}"@, "#[code, system, unit, value]"@, "{$.value} {$.unit}"@, "#[family, given]"@, "{$.given} {$.family}"@];
    let ghost ls4: Seq<Seq<char>> = seq!["{$.code} ({$.system})"@, "#[system, code, display]"@, "{$.display}"@, "#[code, display, system, version]"@, "{$.display}"@, "#[system, value]"@, "{$.value} | {$.system}"@, "#[code, system, unit, value]"@, "{$.value} {$.unit}"@, "#[family, given]"@, "{$.given} {$.family}"@];
    let ghost ls5: Seq<Seq<char>> = seq!["#[system, code, display]"@, "{$.display}"@, "#[code, display, system, version]"@, "{$.display}"@, "#[system, value]"@, "{$.value} | {$.system}"@, "#[code, system, unit, value]"@, "{$.value} {$.unit}"@, "#[family, given]"@, "{$.given} {$.family}"@];
    let ghost ls6: Seq<Seq<char>> = seq!["{$.display}"@, "#[code, display, system, version]"@, "{$.display}"@, "#[system, value]"@, "{$.value} | {$.system}"@, "#[code, system, unit, value]"@, "{$.value} {$.unit}"@, "#[family, given]"@, "{$.given} {$.family}"@];
    let ghost ls7: Seq<Seq<char>> = seq!["#[code, display, system, version]"@, "{$.display}"@, "#[system, value]"@, "{$.value} | {$.system}"@, "#[code, system, unit, value]"@, "{$.value} {$.unit}"@, "#[family, given]"@, "{$.given} {$.family}"@];
    let ghost ls8: Seq<Seq<char>> = seq!["{$.display}"@, "#[system, value]"@, "{$.value} | {$.system}"@, "#[code, system, unit, value]"@, "{$.value} {$.unit}"@, "#[family, given]"@, "{$.given} {$.family}"@];
    let ghost ls9: Seq<Seq<char>> = seq!["#[system, value]"@, "{$.value} | {$.system}"@, "#[code, system, unit, value]"@, "{$.value} {$.unit}"@, "#[family, given]"@, "{$.given} {$.family}"@];
    let ghost ls10: Seq<Seq<char>> = seq!["{$.value} | {$.system}"@, "#[code, system, unit, value]"@, "{$.value} {$.unit}"@, "#[family, given]"@, "{$.given} {$.family}"@];
    let ghost ls11: Seq<Seq<char>> = seq!["#[code, system, unit, value]"@, "{$.value} {$.unit}"@, "#[family, given]"@, "{$.given} {$.family}"@];
    let ghost ls12: Seq<Seq<char>> = seq!["{$.value} {$.unit}"@, "#[family, given]"@, "{$.given} {$.family}"@];
    let ghost ls13: Seq<Seq<char>> = seq!["#[family, given]"@, "{$.given} {$.family}"@];
    let ghost ls14: Seq<Seq<char>> = seq!["{$.given} {$.family}"@];
    let ghost ls15: Seq<Seq<char>> = Seq::<Seq<char>>::empty();
    assert(ls0.drop_first() =~~= ls1);
    assert(!is_ws(ls0[0][0]));
    assert(ws_prefix_len(ls0[0]) == 0);
    assert(trim_start_spec(ls0[0]) =~= ls0[0]);
    assert(is_comment_line(ls0[0]));
    assert(keep_lines(ls0) == keep_lines(ls1));
    assert(ls1.drop_first() =~~= ls2);
    assert(!is_ws(ls1[0][0]));
    assert(ws_prefix_len(ls1[0]) == 0);
    assert(trim_start_spec(ls1[0]) =~= ls1[0]);
    assert(is_comment_line(ls1[0]));
    assert(keep_lines(ls1) == keep_lines(ls2));
    assert(ls2.drop_first() =~~= ls3);
    assert(!is_ws(ls2[0][0]));
    assert(ws_prefix_len(ls2[0]) == 0);
    assert(trim_start_spec(ls2[0]) =~= ls2[0]);
    assert(is_comment_line(ls2[0]));
    assert(keep_lines(ls2) == keep_lines(ls3));
    assert(ls3.drop_first() =~~= ls4);
    assert(!is_ws(ls3[0][0]));
    assert(ws_prefix_len(ls3[0]) == 0);
    assert(trim_start_spec(ls3[0]) =~= ls3[0]);
    assert(!is_comment_line(ls3[0]));
    assert(keep_lines(ls3) == seq![ls3[0]] + keep_lines(ls4));
    assert(ls4.drop_first() =~~= ls5);
    assert(!is_ws(ls4[0][0]));
    assert(ws_prefix_len(ls4[0]) == 0);
    assert(trim_start_spec(ls4[0]) =~= ls4[0]);
    assert(!is_comment_line(ls4[0]));
    assert(keep_lines(ls4) == seq![ls4[0]] + keep_lines(ls5));
    assert(ls5.drop_first() =~~= ls6);
    assert(!is_ws(ls5[0][0]));
    assert(ws_prefix_len(ls5[0]) == 0);
    assert(trim_start_spec(ls5[0]) =~= ls5[0]);
    assert(!is_comment_line(ls5[0]));
    assert(keep_lines(ls5) == seq![ls5[0]] + keep_lines(ls6));
    assert(ls6.drop_first() =~~= ls7);
    assert(!is_ws(ls6[0][0]));
    assert(ws_prefix_len(ls6[0]) == 0);
    assert(trim_start_spec(ls6[0]) =~= ls6[0]);
    assert(!is_comment_line(ls6[0]));
    assert(keep_lines(ls6) == seq![ls6[0]] + keep_lines(ls7));
    assert(ls7.drop_first() =~~= ls8);
    assert(!is_ws(ls7[0][0]));
    assert(ws_prefix_len(ls7[0]) == 0);
    assert(trim_start_spec(ls7[0]) =~= ls7[0]);
    assert(!is_comment_line(ls7[0]));
    assert(keep_lines(ls7) == seq![ls7[0]] + keep_lines(ls8));
    assert(ls8.drop_first() =~~= ls9);
    assert(!is_ws(ls8[0][0]));
    assert(ws_prefix_len(ls8[0]) == 0);
    assert(trim_start_spec(ls8[0]) =~= ls8[0]);
    assert(!is_comment_line(ls8[0]));
    assert(keep_lines(ls8) == seq![ls8[0]] + keep_lines(ls9));
    assert(ls9.drop_first() =~~= ls10);
    assert(!is_ws(ls9[0][0]));
    assert(ws_prefix_len(ls9[0]) == 0);
    assert(trim_start_spec(ls9[0]) =~= ls9[0]);
    assert(!is_comment_line(ls9[0]));
    assert(keep_lines(ls9) == seq![ls9[0]] + keep_lines(ls10));
    assert(ls10.drop_first() =~~= ls11);
    assert(!is_ws(ls10[0][0]));
    assert(ws_prefix_len(ls10[0]) == 0);
    assert(trim_start_spec(ls10[0]) =~= ls10[0]);
    assert(!is_comment_line(ls10[0]));
    assert(keep_lines(ls10) == seq![ls10[0]] + keep_lines(ls11));
    assert(ls11.drop_first() =~~= ls12);
    assert(!is_ws(ls11[0][0]));
    assert(ws_prefix_len(ls11[0]) == 0);
    assert(trim_start_spec(ls11[0]) =~= ls11[0]);
    assert(!is_comment_line(ls11[0]));
    assert(keep_lines(ls11) == seq![ls11[0]] + keep_lines(ls12));
    assert(ls12.drop_first() =~~= ls13);
    assert(!is_ws(ls12[0][0]));
    assert(ws_prefix_len(ls12[0]) == 0);
    assert(trim_start_spec(ls12[0]) =~= ls12[0]);
    assert(!is_comment_line(ls12[0]));
    assert(keep_lines(ls12) == seq![ls12[0]] + keep_lines(ls13));
    assert(ls13.drop_first() =~~= ls14);
    assert(!is_ws(ls13[0][0]));
    assert(ws_prefix_len(ls13[0]) == 0);
    assert(trim_start_spec(ls13[0]) =~= ls13[0]);
    assert(!is_comment_line(ls13[0]));
    assert(keep_lines(ls13) == seq![ls13[0]] + keep_lines(ls14));
    assert(ls14.drop_first() =~~= ls15);
    assert(!is_ws(ls14[0][0]));
    assert(ws_prefix_len(ls14[0]) == 0);
    assert(trim_start_spec(ls14[0]) =~= ls14[0]);
    assert(!is_comment_line(ls14[0]));
    assert(keep_lines(ls14) == seq![ls14[0]] + keep_lines(ls15));
    assert(keep_lines(ls15) =~~= Seq::<Seq<char>>::empty());
    assert(default_line_seq() =~~= ls0);
    assert(keep_lines(default_line_seq()) =~~= default_sig_seq());
}

#[verifier::rlimit(100)]
proof fn lemma_default_sigs()
    ensures
        forall|i: int|
            0 <= i < 12 && i % 2 == 0 ==> is_sig_line(trim_spec(#[trigger] default_sig_seq()[i])),
{
    reveal_strlit("#[system, code]");
    reveal_strlit("#[system, code, display]");
    reveal_strlit("#[code, display, system, version]");
    reveal_strlit("#[system, value]");
    reveal_strlit("#[code, system, unit, value]");
    reveal_strlit("#[family, given]");
    let ghost g0: Seq<char> = "#[system, code]"@;
    assert(!is_ws(g0[0]));
    assert(ws_prefix_len(g0) == 0);
    assert(trim_start_spec(g0) =~= g0);
    assert(!is_ws(g0.last()));
    assert(ws_suffix_len(g0) == 0);
    assert(trim_end_spec(g0) =~= g0);
    assert(trim_spec(g0) == g0);
    assert(forall|j: int| 0 <= j < g0.len() - 3 ==> #[trigger] g0.subrange(2, g0.len() - 1)[j] != '\n');
    lemma_first_at_none(g0.subrange(2, g0.len() - 1), '\n');
    assert(is_sig_line(g0));
    let ghost g1: Seq<char> = "#[system, code, display]"@;
    assert(!is_ws(g1[0]));
    assert(ws_prefix_len(g1) == 0);
    assert(trim_start_spec(g1) =~= g1);
    assert(!is_ws(g1.last()));
    assert(ws_suffix_len(g1) == 0);
    assert(trim_end_spec(g1) =~= g1);
    assert(trim_spec(g1) == g1);
    assert(forall|j: int| 0 <= j < g1.len() - 3 ==> #[trigger] g1.subrange(2, g1.len() - 1)[j] != '\n');
    lemma_first_at_none(g1.subrange(2, g1.len() - 1), '\n');
    assert(is_sig_line(g1));
    let ghost g2: Seq<char> = "#[code, display, system, version]"@;
    assert(!is_ws(g2[0]));
    assert(ws_prefix_len(g2) == 0);
    assert(trim_start_spec(g2) =~= g2);
    assert(!is_ws(g2.last()));
    assert(ws_suffix_len(g2) == 0);
    assert(trim_end_spec(g2) =~= g2);
    assert(trim_spec(g2) == g2);
    assert(forall|j: int| 0 <= j < g2.len() - 3 ==> #[trigger] g2.subrange(2, g2.len() - 1)[j] != '\n');
    lemma_first_at_none(g2.subrange(2, g2.len() - 1), '\n');
    assert(is_sig_line(g2));
    let ghost g3: Seq<char> = "#[system, value]"@;
    assert(!is_ws(g3[0]));
    assert(ws_prefix_len(g3) == 0);
    assert(trim_start_spec(g3) =~= g3);
    assert(!is_ws(g3.last()));
    assert(ws_suffix_len(g3) == 0);
    assert(trim_end_spec(g3) =~= g3);
    assert(trim_spec(g3) == g3);
    assert(forall|j: int| 0 <= j < g3.len() - 3 ==> #[trigger] g3.subrange(2, g3.len() - 1)[j] != '\n');
    lemma_first_at_none(g3.subrange(2, g3.len() - 1), '\n');
    assert(is_sig_line(g3));
    let ghost g4: Seq<char> = "#[code, system, unit, value]"@;
    assert(!is_ws(g4[0]));
    assert(ws_prefix_len(g4) == 0);
    assert(trim_start_spec(g4) =~= g4);
    assert(!is_ws(g4.last()));
    assert(ws_suffix_len(g4) == 0);
    assert(trim_end_spec(g4) =~= g4);
    assert(trim_spec(g4) == g4);
    assert(forall|j: int| 0 <= j < g4.len() - 3 ==> #[trigger] g4.subrange(2, g4.len() - 1)[j] != '\n');
    lemma_first_at_none(g4.subrange(2, g4.len() - 1), '\n');
    assert(is_sig_line(g4));
    let ghost g5: Seq<char> = "#[family, given]"@;
    assert(!is_ws(g5[0]));
    assert(ws_prefix_len(g5) == 0);
    assert(trim_start_spec(g5) =~= g5);
    assert(!is_ws(g5.last()));
    assert(ws_suffix_len(g5) == 0);
    assert(trim_end_spec(g5) =~= g5);
    assert(trim_spec(g5) == g5);
    assert(forall|j: int| 0 <= j < g5.len() - 3 ==> #[trigger] g5.subrange(2, g5.len() - 1)[j] != '\n');
    lemma_first_at_none(g5.subrange(2, g5.len() - 1), '\n');
    assert(is_sig_line(g5));
    assert forall|i: int|
        0 <= i < 12 && i % 2 == 0 implies is_sig_line(trim_spec(#[trigger] default_sig_seq()[i])) by {
        if i == 0 {
            assert(default_sig_seq()[i] == "#[system, code]"@);
        } else if i == 2 {
            assert(default_sig_seq()[i] == "#[system, code, display]"@);
        } else if i == 4 {
            assert(default_sig_seq()[i] == "#[code, display, system, version]"@);
        } else if i == 6 {
            assert(default_sig_seq()[i] == "#[system, value]"@);
        } else if i == 8 {
            assert(default_sig_seq()[i] == "#[code, system, unit, value]"@);
        } else if i == 10 {
            assert(default_sig_seq()[i] == "#[family, given]"@);
        } else {
            assert(false);
        }
    }
}

/// The compiled-in rule source, sent through the same comment stripping and
/// pairing as any other source, builds its registry without error.
pub proof fn lemma_default_mapping_parses()
    ensures
        build_registry(mapping_lines(default_mapping_text())) is Ok,
{
    lemma_default_split();
    lemma_default_keep();
    assert(mapping_lines(default_mapping_text()) == default_sig_seq());
    lemma_default_sigs();
    assert(default_sig_seq().len() == 12);
    lemma_build_registry_ok(default_sig_seq());
}


/// The registry the compiled-in rule source declares.
pub open spec fn default_registry() -> Map<Seq<char>, Seq<char>> {
    match build_registry(mapping_lines(default_mapping_text())) {
        Ok(m) => m,
        Err(_) => Map::empty(),
    }
}

} // verus!
