//! The line codec: a flat text format holding one rename per line, the two
//! names separated by a single `|`. `parse_renamepairs` turns text into
//! pairs, `format_renamepairs` is the inverse projection.

use vstd::prelude::*;
use vstd::string::StrSliceExecFns;
use vstd::string::StringExecFns;
use crate::pair::RenamePair;
use crate::pair::SpecPair;
use crate::pair::pairs_view;

verus! {

/// How many times `c` occurs in `s`.
pub open spec fn count_char(s: Seq<char>, c: char) -> nat
    decreases s.len(),
{
    if s.len() == 0 {
        0
    } else {
        count_char(s.drop_last(), c) + (if s.last() == c {
            1nat
        } else {
            0nat
        })
    }
}

/// Index of the first occurrence of `c` in `s` at or after `i`; `s.len()`
/// when there is none.
pub open spec fn first_index_of(s: Seq<char>, c: char, i: int) -> int
    decreases s.len() - i,
{
    if i < 0 || i >= s.len() {
        s.len() as int
    } else if s[i] == c {
        i
    } else {
        first_index_of(s, c, i + 1)
    }
}

/// `first_index_of` is pinned down by the absence of `c` before `r` and its
/// presence (or the end of `s`) at `r`.
pub proof fn lemma_first_index_of_is(s: Seq<char>, c: char, i: int, r: int)
    requires
        0 <= i <= r <= s.len(),
        forall|k: int| i <= k < r ==> s[k] != c,
        r == s.len() || s[r] == c,
    ensures
        first_index_of(s, c, i) == r,
    decreases r - i,
{
    if i < r {
        lemma_first_index_of_is(s, c, i + 1, r);
    }
}

/// Occurrence counts add up over concatenation.
pub proof fn lemma_count_char_append(a: Seq<char>, b: Seq<char>, c: char)
    ensures
        count_char(a + b, c) == count_char(a, c) + count_char(b, c),
    decreases b.len(),
{
    if b.len() == 0 {
        assert(a + b =~= a);
    } else {
        lemma_count_char_append(a, b.drop_last(), c);
        assert((a + b).drop_last() =~= a + b.drop_last());
    }
}

/// A character is absent exactly when its count is zero.
pub proof fn lemma_count_char_zero(s: Seq<char>, c: char)
    ensures
        (count_char(s, c) == 0) <==> (forall|k: int| 0 <= k < s.len() ==> s[k] != c),
    decreases s.len(),
{
    if s.len() > 0 {
        lemma_count_char_zero(s.drop_last(), c);
        assert(forall|k: int| 0 <= k < s.len() - 1 ==> s[k] == s.drop_last()[k]);
    }
}

/// What one line means: with exactly one separator it splits into the two
/// fields; otherwise it is malformed.
pub open spec fn spec_parse_line(line: Seq<char>) -> Option<SpecPair> {
    if count_char(line, '|') == 1 {
        let p = first_index_of(line, '|', 0);
        Some(SpecPair { from: line.take(p), to: line.skip(p + 1) })
    } else {
        None
    }
}

/// What a whole text means: the pairs of its lines in order, or the first
/// malformed line. A final line may or may not end in a newline; empty text
/// holds no lines.
pub open spec fn spec_parse(s: Seq<char>) -> Result<Seq<SpecPair>, Seq<char>>
    decreases s.len(),
{
    if s.len() == 0 {
        Ok(Seq::empty())
    } else {
        let j = first_index_of(s, '\n', 0);
        if 0 <= j < s.len() {
            let line = s.take(j);
            match spec_parse_line(line) {
                Some(p) => match spec_parse(s.skip(j + 1)) {
                    Ok(ps) => Ok(seq![p] + ps),
                    Err(l) => Err(l),
                },
                None => Err(line),
            }
        } else {
            match spec_parse_line(s) {
                Some(p) => Ok(seq![p]),
                None => Err(s),
            }
        }
    }
}

/// The textual projection of one pair: `from|to` and a terminating newline.
pub open spec fn spec_format_line(p: SpecPair) -> Seq<char> {
    p.from + seq!['|'] + p.to + seq!['\n']
}

/// The textual projection of a pair list, in the order given.
pub open spec fn spec_format(ps: Seq<SpecPair>) -> Seq<char>
    decreases ps.len(),
{
    if ps.len() == 0 {
        Seq::empty()
    } else {
        spec_format_line(ps[0]) + spec_format(ps.skip(1))
    }
}

proof fn lemma_format_snoc(ps: Seq<SpecPair>, p: SpecPair)
    ensures
        spec_format(ps.push(p)) == spec_format(ps) + spec_format_line(p),
    decreases ps.len(),
{
    if ps.len() == 0 {
        assert(ps.push(p)[0] == p);
        assert(ps.push(p).skip(1) =~= Seq::<SpecPair>::empty());
        assert(spec_format(ps.push(p).skip(1)) == Seq::<char>::empty());
        assert(spec_format(ps) == Seq::<char>::empty());
        assert(spec_format(ps.push(p)) =~= spec_format(ps) + spec_format_line(p));
    } else {
        lemma_format_snoc(ps.skip(1), p);
        assert(ps.push(p).skip(1) =~= ps.skip(1).push(p));
        assert(ps.push(p)[0] == ps[0]);
        assert(spec_format_line(ps[0]) + (spec_format(ps.skip(1)) + spec_format_line(p))
            =~= (spec_format_line(ps[0]) + spec_format(ps.skip(1))) + spec_format_line(p));
    }
}

/// A malformed line: one that does not split on `|` into exactly two fields.
/// The offending line is carried verbatim.
#[derive(Debug)]
pub struct ParseError {
    pub line: String,
}

/// Prepends already-parsed pairs to the outcome of parsing the remaining text.
pub open spec fn parse_compose(acc: Seq<SpecPair>, r: Result<Seq<SpecPair>, Seq<char>>) -> Result<
    Seq<SpecPair>,
    Seq<char>,
> {
    match r {
        Ok(ps) => Ok(acc + ps),
        Err(l) => Err(l),
    }
}

/// Turns text into the pairs of its lines, in input order. Fails on the
/// first line that does not hold exactly one separator, carrying that line
/// verbatim; no pairs are returned then. Empty text gives an empty list.
pub fn parse_renamepairs(input: String) -> (r: Result<Vec<RenamePair>, ParseError>)
    ensures
        match r {
            Ok(ps) => spec_parse(input@) == Ok::<Seq<SpecPair>, Seq<char>>(pairs_view(ps@)),
            Err(e) => spec_parse(input@) == Err::<Seq<SpecPair>, Seq<char>>(e.line@),
        },
{
    let s = input.as_str();
    let n = s.unicode_len();
    let mut out: Vec<RenamePair> = Vec::new();
    let mut i: usize = 0;
    proof {
        assert(input@.skip(0) =~= input@);
        assert(pairs_view(out@) =~= Seq::<SpecPair>::empty());
        match spec_parse(input@) {
            Ok(ps) => {
                assert(Seq::<SpecPair>::empty() + ps =~= ps);
            },
            Err(_) => {},
        }
    }
    while i < n
        invariant
            i <= n,
            n == input@.len(),
            s@ == input@,
            spec_parse(input@) == parse_compose(pairs_view(out@), spec_parse(input@.skip(i as int))),
        decreases n - i,
    {
        let ghost rem = input@.skip(i as int);
        let ghost acc0 = pairs_view(out@);
        // Find the end of the current line.
        let mut j: usize = i;
        while j < n && s.get_char(j) != '\n'
            invariant
                i <= j <= n,
                n == input@.len(),
                s@ == input@,
                forall|k: int| i <= k < j ==> input@[k] != '\n',
            decreases n - j,
        {
            j = j + 1;
        }
        proof {
            assert(rem.len() == n - i);
            assert(forall|k: int| 0 <= k < j - i ==> rem[k] == input@[i + k] && rem[k] != '\n');
            assert(j < n ==> rem[j - i] == '\n');
            lemma_first_index_of_is(rem, '\n', 0, j - i);
        }
        let line_str = s.substring_char(i, j);
        let ghost line = input@.subrange(i as int, j as int);
        proof {
            assert(line =~= rem.take(j - i));
        }
        let ll: usize = j - i;
        // Count the separators in the line and record the first one.
        let mut cnt: usize = 0;
        let mut pos: usize = 0;
        let mut k: usize = 0;
        while k < ll
            invariant
                k <= ll,
                ll == line.len(),
                line_str@ == line,
                cnt == count_char(line.take(k as int), '|'),
                cnt > 0 ==> pos < k && line[pos as int] == '|' && count_char(
                    line.take(pos as int),
                    '|',
                ) == 0,
                cnt <= k,
            decreases ll - k,
        {
            proof {
                assert(line.take(k as int + 1).drop_last() =~= line.take(k as int));
                assert(line.take(k as int + 1).last() == line[k as int]);
            }
            if line_str.get_char(k) == '|' {
                if cnt == 0 {
                    pos = k;
                }
                cnt = cnt + 1;
            }
            k = k + 1;
        }
        proof {
            assert(line.take(ll as int) =~= line);
        }
        if cnt != 1 {
            proof {
                assert(spec_parse_line(line) is None);
                if j < n {
                    assert(line == rem.take(j - i));
                    assert(spec_parse(rem) == Err::<Seq<SpecPair>, Seq<char>>(line));
                } else {
                    assert(rem.take(j - i) =~= rem);
                    assert(spec_parse(rem) == Err::<Seq<SpecPair>, Seq<char>>(rem));
                }
            }
            return Err(ParseError { line: line_str.to_owned() });
        }
        proof {
            lemma_count_char_zero(line.take(pos as int), '|');
            assert(forall|q: int| 0 <= q < pos ==> line[q] == line.take(pos as int)[q]);
            lemma_first_index_of_is(line, '|', 0, pos as int);
        }
        let from_str = line_str.substring_char(0, pos);
        let to_str = line_str.substring_char(pos + 1, ll);
        let pair = RenamePair { from: from_str.to_owned(), to: to_str.to_owned() };
        let ghost sp = SpecPair { from: line.take(pos as int), to: line.skip(pos as int + 1) };
        proof {
            assert(line.take(pos as int) =~= line.subrange(0, pos as int));
            assert(line.skip(pos as int + 1) =~= line.subrange(pos as int + 1, ll as int));
            assert(pair@ == sp);
            assert(spec_parse_line(line) == Some(sp));
        }
        out.push(pair);
        proof {
            assert(pairs_view(out@) =~= acc0.push(sp));
        }
        let next_i: usize = if j < n {
            j + 1
        } else {
            n
        };
        proof {
            let tail = spec_parse(input@.skip(next_i as int));
            if j < n {
                assert(rem.skip(j - i + 1) =~= input@.skip(next_i as int));
                assert(line == rem.take(j - i));
                assert(spec_parse(rem) == parse_compose(seq![sp], tail));
            } else {
                assert(input@.skip(next_i as int) =~= Seq::<char>::empty());
                assert(tail == Ok::<Seq<SpecPair>, Seq<char>>(Seq::<SpecPair>::empty()));
                assert(rem.take(j - i) =~= rem);
                assert(spec_parse(rem) == Ok::<Seq<SpecPair>, Seq<char>>(seq![sp]));
                assert(seq![sp] + Seq::<SpecPair>::empty() =~= seq![sp]);
                assert(spec_parse(rem) == parse_compose(seq![sp], tail));
            }
            match tail {
                Ok(ps) => {
                    assert(acc0 + (seq![sp] + ps) =~= acc0.push(sp) + ps);
                    assert(parse_compose(acc0, spec_parse(rem)) == Ok::<
                        Seq<SpecPair>,
                        Seq<char>,
                    >(acc0.push(sp) + ps));
                },
                Err(_) => {},
            }
            assert(spec_parse(input@) == parse_compose(pairs_view(out@), tail));
        }
        i = next_i;
    }
    proof {
        assert(input@.skip(i as int) =~= Seq::<char>::empty());
        assert(spec_parse(input@.skip(i as int)) == Ok::<Seq<SpecPair>, Seq<char>>(Seq::empty()));
        assert(pairs_view(out@) + Seq::<SpecPair>::empty() =~= pairs_view(out@));
    }
    Ok(out)
}

/// Serializes the pairs, one `from|to` line per pair, in the order given.
pub fn format_renamepairs(rename_pairs: Vec<RenamePair>) -> (r: String)
    ensures
        r@ == spec_format(pairs_view(rename_pairs@)),
{
    let ghost ps = pairs_view(rename_pairs@);
    let mut result = String::new();
    let mut i: usize = 0;
    while i < rename_pairs.len()
        invariant
            i <= rename_pairs@.len(),
            ps == pairs_view(rename_pairs@),
            result@ == spec_format(ps.take(i as int)),
        decreases rename_pairs@.len() - i,
    {
        result.append(rename_pairs[i].from.as_str());
        result.append("|");
        result.append(rename_pairs[i].to.as_str());
        result.append("\n");
        proof {
            reveal_strlit("|");
            reveal_strlit("\n");
            assert("|"@ =~= seq!['|']);
            assert("\n"@ =~= seq!['\n']);
            lemma_format_snoc(ps.take(i as int), ps[i as int]);
            assert(ps.take(i as int).push(ps[i as int]) =~= ps.take(i as int + 1));
            assert(result@ =~= spec_format(ps.take(i as int)) + spec_format_line(ps[i as int]));
        }
        i = i + 1;
    }
    proof {
        assert(ps.take(rename_pairs@.len() as int) =~= ps);
    }
    result
}

/// A name that the line format can carry: no separator, no newline.
pub open spec fn field_ok(s: Seq<char>) -> bool {
    forall|k: int| 0 <= k < s.len() ==> s[k] != '|' && s[k] != '\n'
}

/// A pair list the format can represent: every field is representable.
pub open spec fn pairs_wellformed(ps: Seq<SpecPair>) -> bool {
    forall|i: int| 0 <= i < ps.len() ==> field_ok(#[trigger] ps[i].from) && field_ok(ps[i].to)
}

/// Round-trip law: parsing a formatted pair list gives the list back, for
/// any list whose fields hold neither the separator nor a newline.
#[verifier::rlimit(60)]
pub proof fn lemma_parse_format_roundtrip(ps: Seq<SpecPair>)
    requires
        pairs_wellformed(ps),
    ensures
        spec_parse(spec_format(ps)) == Ok::<Seq<SpecPair>, Seq<char>>(ps),
    decreases ps.len(),
{
    if ps.len() == 0 {
        assert(spec_format(ps) == Seq::<char>::empty());
        assert(Seq::<SpecPair>::empty() =~= ps);
    } else {
        let p = ps[0];
        let rest = ps.skip(1);
        let line = p.from + seq!['|'] + p.to;
        let text = spec_format(ps);
        assert(spec_format_line(p) =~= line + seq!['\n']);
        assert(text == spec_format_line(p) + spec_format(rest));
        assert(text =~= line + seq!['\n'] + spec_format(rest));
        let ln = line.len() as int;
        assert(forall|k: int| 0 <= k < p.from.len() ==> line[k] == p.from[k]);
        assert(line[p.from.len() as int] == '|');
        assert(forall|k: int|
            p.from.len() < k < ln ==> line[k] == p.to[k - p.from.len() - 1]);
        assert(forall|k: int| 0 <= k < ln ==> text[k] == line[k] && text[k] != '\n');
        assert(text[ln] == '\n');
        lemma_first_index_of_is(text, '\n', 0, ln);
        assert(text.take(ln) =~= line);
        // The line splits at the separator, which occurs exactly once.
        lemma_count_char_append(p.from + seq!['|'], p.to, '|');
        lemma_count_char_append(p.from, seq!['|'], '|');
        lemma_count_char_zero(p.from, '|');
        lemma_count_char_zero(p.to, '|');
        assert(count_char(seq!['|'], '|') == 1) by {
            assert(seq!['|'].drop_last() =~= Seq::<char>::empty());
            assert(count_char(Seq::<char>::empty(), '|') == 0);
            assert(seq!['|'].last() == '|');
        }
        assert(line =~= (p.from + seq!['|']) + p.to);
        assert(count_char(line, '|') == 1);
        lemma_first_index_of_is(line, '|', 0, p.from.len() as int);
        assert(line.take(p.from.len() as int) =~= p.from);
        assert(line.skip(p.from.len() as int + 1) =~= p.to);
        assert(spec_parse_line(line) == Some(SpecPair { from: p.from, to: p.to }));
        assert(SpecPair { from: p.from, to: p.to } == p);
        // The remaining text is exactly the formatted tail.
        assert(text.skip(ln + 1) =~= spec_format(rest));
        lemma_parse_format_roundtrip(rest);
        assert(seq![p] + rest =~= ps);
    }
}

/// A parse error always carries a line that does not split on the separator
/// into exactly two fields.
pub proof fn lemma_parse_err_line_malformed(s: Seq<char>)
    requires
        spec_parse(s) is Err,
    ensures
        count_char(spec_parse(s)->Err_0, '|') != 1,
    decreases s.len(),
{
    if s.len() > 0 {
        let j = first_index_of(s, '\n', 0);
        if 0 <= j < s.len() {
            if spec_parse_line(s.take(j)) is Some {
                lemma_parse_err_line_malformed(s.skip(j + 1));
            }
        }
    }
}

} // verus!
