use vstd::prelude::*;

verus! {

broadcast use vstd::string::group_string_axioms;

/// Unicode `White_Space` characters: the characters that `char::is_whitespace`
/// accepts and that `str::trim` removes.
pub open spec fn is_white_space(c: char) -> bool {
    ||| '\u{9}' <= c <= '\u{d}'
    ||| c == ' '
    ||| c == '\u{85}'
    ||| c == '\u{a0}'
    ||| c == '\u{1680}'
    ||| '\u{2000}' <= c <= '\u{200a}'
    ||| c == '\u{2028}'
    ||| c == '\u{2029}'
    ||| c == '\u{202f}'
    ||| c == '\u{205f}'
    ||| c == '\u{3000}'
}

/// `s` without its leading white space.
pub open spec fn trim_start(s: Seq<char>) -> Seq<char>
    decreases s.len(),
{
    if s.len() > 0 && is_white_space(s[0]) {
        trim_start(s.drop_first())
    } else {
        s
    }
}

/// `s` without its trailing white space.
pub open spec fn trim_end(s: Seq<char>) -> Seq<char>
    decreases s.len(),
{
    if s.len() > 0 && is_white_space(s.last()) {
        trim_end(s.drop_last())
    } else {
        s
    }
}

/// `s` without leading and trailing white space, as `str::trim` returns it.
pub open spec fn trim(s: Seq<char>) -> Seq<char> {
    trim_end(trim_start(s))
}

/// Whether `c` is a Unicode `White_Space` character.
pub fn is_white_space_char(c: char) -> (b: bool)
    ensures
        b == is_white_space(c),
{
    ('\u{9}' <= c && c <= '\u{d}') || c == ' ' || c == '\u{85}' || c == '\u{a0}' || c == '\u{1680}'
        || ('\u{2000}' <= c && c <= '\u{200a}') || c == '\u{2028}' || c == '\u{2029}' || c
        == '\u{202f}' || c == '\u{205f}' || c == '\u{3000}'
}

/// The characters of `s`, in order.
pub fn chars_of(s: &str) -> (v: Vec<char>)
    ensures
        v@ == s@,
{
    let mut v: Vec<char> = Vec::new();
    for c in it: s.chars()
        invariant
            it.seq() == s@,
            v@ == it.seq().take(it.index() as int),
    {
        v.push(c);
    }
    v
}

/// Finds the part of `s[lo..hi]` that remains once leading and trailing white
/// space are removed.
pub fn trim_range(s: &Vec<char>, lo: usize, hi: usize) -> (r: (usize, usize))
    requires
        lo <= hi <= s@.len(),
    ensures
        lo <= r.0 <= r.1 <= hi,
        s@.subrange(r.0 as int, r.1 as int) == trim(s@.subrange(lo as int, hi as int)),
{
    let mut i = lo;
    while i < hi && is_white_space_char(s[i])
        invariant
            lo <= i <= hi <= s@.len(),
            trim_start(s@.subrange(lo as int, hi as int)) == trim_start(
                s@.subrange(i as int, hi as int),
            ),
        decreases hi - i,
    {
        assert(s@.subrange(i as int, hi as int).drop_first() =~= s@.subrange(i + 1, hi as int));
        i = i + 1;
    }
    assert(trim_start(s@.subrange(i as int, hi as int)) == s@.subrange(i as int, hi as int));
    let mut j = hi;
    while j > i && is_white_space_char(s[j - 1])
        invariant
            lo <= i <= j <= hi <= s@.len(),
            trim_end(s@.subrange(i as int, hi as int)) == trim_end(s@.subrange(i as int, j as int)),
        decreases j - i,
    {
        assert(s@.subrange(i as int, j as int).drop_last() =~= s@.subrange(i as int, j - 1));
        j = j - 1;
    }
    assert(trim_end(s@.subrange(i as int, j as int)) == s@.subrange(i as int, j as int));
    (i, j)
}

/// The pieces of `s` between newline characters, in order; there is always
/// at least one (the text after the last newline, possibly empty).
pub open spec fn split_lines(s: Seq<char>) -> Seq<Seq<char>>
    decreases s.len(),
{
    if s.len() == 0 {
        seq![Seq::<char>::empty()]
    } else {
        let init = split_lines(s.drop_last());
        if s.last() == '\n' {
            init.push(Seq::<char>::empty())
        } else {
            init.update(init.len() - 1, init.last().push(s.last()))
        }
    }
}

/// The lines after the first (header) line, trimmed, keeping those that are
/// not empty once trimmed.
pub open spec fn values_after_header(lines: Seq<Seq<char>>) -> Seq<Seq<char>>
    decreases lines.len(),
{
    if lines.len() <= 1 {
        Seq::empty()
    } else {
        let rest = values_after_header(lines.drop_last());
        let t = trim(lines.last());
        if t.len() > 0 {
            rest.push(t)
        } else {
            rest
        }
    }
}

/// The values that a tabular command output holds below its header line:
/// the non-empty trimmed lines after the first line, in order.
pub open spec fn tabular_values(text: Seq<char>) -> Seq<Seq<char>> {
    values_after_header(split_lines(text))
}

proof fn lemma_split_lines_len(s: Seq<char>)
    ensures
        split_lines(s).len() >= 1,
    decreases s.len(),
{
    if s.len() > 0 {
        lemma_split_lines_len(s.drop_last());
    }
}

/// Appends the trimmed `chars[lo..hi]` to `values`, unless it is empty.
fn push_trimmed(text: &str, chars: &Vec<char>, lo: usize, hi: usize, values: &mut Vec<String>)
    requires
        chars@ == text@,
        lo <= hi <= chars@.len(),
    ensures
        final(values)@.len() == old(values)@.len() + (if trim(chars@.subrange(lo as int, hi as int)).len() > 0 { 1int } else { 0int }),
        forall|k: int| 0 <= k < old(values)@.len() ==> #[trigger] final(values)@[k] == old(values)@[k],
        trim(chars@.subrange(lo as int, hi as int)).len() > 0 ==> final(values)@.last()@ == trim(chars@.subrange(lo as int, hi as int)),
{
    let (a, b) = trim_range(chars, lo, hi);
    if a < b {
        let piece = text.substring_char(a, b);
        values.push(piece.to_owned());
    }
}

/// The values below the header line of a tabular command output (see
/// `tabular_values`).
pub fn tabular_value_lines(text: &str) -> (values: Vec<String>)
    ensures
        values@.len() == tabular_values(text@).len(),
        forall|k: int| 0 <= k < values@.len() ==> #[trigger] values@[k]@ == tabular_values(text@)[k],
{
    let chars = chars_of(text);
    let n = chars.len();
    let mut values: Vec<String> = Vec::new();
    let mut line_start: usize = 0;
    let mut count: usize = 0;
    let mut i: usize = 0;
    assert(chars@.take(0) =~= Seq::<char>::empty());
    assert(chars@.subrange(0, 0) =~= Seq::<char>::empty());
    while i < n
        invariant
            n == chars@.len(),
            chars@ == text@,
            line_start <= i <= n,
            count <= i,
            split_lines(chars@.take(i as int)).len() == count + 1,
            split_lines(chars@.take(i as int)).last() == chars@.subrange(line_start as int, i as int),
            values@.len() == values_after_header(split_lines(chars@.take(i as int)).take(count as int)).len(),
            forall|k: int| 0 <= k < values@.len() ==> #[trigger] values@[k]@ == values_after_header(
                split_lines(chars@.take(i as int)).take(count as int))[k],
        decreases n - i,
    {
        let ghost lines = split_lines(chars@.take(i as int));
        let ghost old_values = values@;
        assert(chars@.take(i + 1).drop_last() =~= chars@.take(i as int));
        assert(chars@.take(i + 1).last() == chars@[i as int]);
        if chars[i] == '\n' {
            let ghost line = chars@.subrange(line_start as int, i as int);
            assert(lines.take(count as int).push(line) =~= lines);
            if count >= 1 {
                push_trimmed(text, &chars, line_start, i, &mut values);
            }
            proof {
                let done = lines.take(count as int);
                assert(done.push(line).drop_last() =~= done);
                assert(split_lines(chars@.take(i + 1)) =~= lines.push(Seq::<char>::empty()));
                assert(split_lines(chars@.take(i + 1)).take(count + 1) =~= lines);
                assert(chars@.subrange(i + 1, i + 1) =~= Seq::<char>::empty());
                assert forall|k: int| 0 <= k < values@.len() implies #[trigger] values@[k]@
                    == values_after_header(lines)[k] by {
                    if k < old_values.len() {
                        assert(values@[k] == old_values[k]);
                    }
                }
            }
            count = count + 1;
            line_start = i + 1;
        } else {
            proof {
                lemma_split_lines_len(chars@.take(i as int));
                let next = split_lines(chars@.take(i + 1));
                assert(next =~= lines.update(count as int, lines.last().push(chars@[i as int])));
                assert(next.take(count as int) =~= lines.take(count as int));
                assert(next.last() =~= chars@.subrange(line_start as int, i + 1));
            }
        }
        i = i + 1;
    }
    let ghost lines = split_lines(chars@.take(n as int));
    let ghost old_values = values@;
    let ghost line = chars@.subrange(line_start as int, n as int);
    assert(chars@.take(n as int) =~= chars@);
    assert(lines.take(count as int).push(line) =~= lines);
    if count >= 1 {
        push_trimmed(text, &chars, line_start, n, &mut values);
    }
    proof {
        let done = lines.take(count as int);
        assert(done.push(line).drop_last() =~= done);
        assert forall|k: int| 0 <= k < values@.len() implies #[trigger] values@[k]@
            == values_after_header(lines)[k] by {
            if k < old_values.len() {
                assert(values@[k] == old_values[k]);
            }
        }
    }
    values
}

/// Whether `needle` occurs in `hay` as a contiguous piece.
pub open spec fn contains_text(hay: Seq<char>, needle: Seq<char>) -> bool {
    exists|i: int|
        0 <= i && i + needle.len() <= hay.len() && #[trigger] hay.subrange(i, i + needle.len())
            == needle
}

/// Whether `a` and `b` hold the same characters.
pub fn same_text(a: &str, b: &str) -> (r: bool)
    ensures
        r == (a@ == b@),
{
    let x = chars_of(a);
    let y = chars_of(b);
    if x.len() != y.len() {
        return false;
    }
    for i in 0..x.len()
        invariant
            x@ == a@,
            y@ == b@,
            x@.len() == y@.len(),
            forall|j: int| 0 <= j < i ==> x@[j] == y@[j],
    {
        if x[i] != y[i] {
            return false;
        }
    }
    assert(x@ =~= y@);
    true
}

/// Whether `needle` occurs in `hay` starting at position `i`.
fn occurs_at(hay: &Vec<char>, needle: &Vec<char>, i: usize) -> (r: bool)
    requires
        i + needle@.len() <= hay@.len(),
    ensures
        r == (hay@.subrange(i as int, i + needle@.len()) == needle@),
{
    let n = needle.len();
    for k in 0..n
        invariant
            n == needle@.len(),
            i + n <= hay.len(),
            forall|j: int| 0 <= j < k ==> hay@[i + j] == needle@[j],
    {
        if hay[i + k] != needle[k] {
            assert(hay@.subrange(i as int, i + n)[k as int] != needle@[k as int]);
            return false;
        }
    }
    assert(hay@.subrange(i as int, i + n) =~= needle@);
    true
}

/// Whether the text `needle` occurs in the text `hay`.
pub fn contains_str(hay: &str, needle: &str) -> (r: bool)
    ensures
        r == contains_text(hay@, needle@),
{
    let h = chars_of(hay);
    let n = chars_of(needle);
    if n.len() > h.len() {
        return false;
    }
    let last = h.len() - n.len();
    let mut i: usize = 0;
    loop
        invariant
            h@ == hay@,
            n@ == needle@,
            last == h@.len() - n@.len(),
            i <= last,
            forall|j: int| 0 <= j < i ==> #[trigger] h@.subrange(j, j + n@.len()) != n@,
        decreases last - i,
    {
        if occurs_at(&h, &n, i) {
            return true;
        }
        if i == last {
            return false;
        }
        i = i + 1;
    }
}

/// Whether `s` is non-empty and neither starts nor ends with white space.
pub open spec fn is_trimmed_nonempty(s: Seq<char>) -> bool {
    &&& s.len() > 0
    &&& !is_white_space(s[0])
    &&& !is_white_space(s.last())
}

proof fn lemma_trim_start_first(s: Seq<char>)
    ensures
        trim_start(s).len() > 0 ==> !is_white_space(trim_start(s)[0]),
    decreases s.len(),
{
    if s.len() > 0 && is_white_space(s[0]) {
        lemma_trim_start_first(s.drop_first());
    }
}

proof fn lemma_trim_end_prefix(s: Seq<char>)
    ensures
        trim_end(s).len() <= s.len(),
        trim_end(s) == s.subrange(0, trim_end(s).len() as int),
        trim_end(s).len() > 0 ==> !is_white_space(trim_end(s).last()),
    decreases s.len(),
{
    if s.len() > 0 && is_white_space(s.last()) {
        lemma_trim_end_prefix(s.drop_last());
        assert(trim_end(s) =~= s.subrange(0, trim_end(s).len() as int));
    } else {
        assert(s =~= s.subrange(0, s.len() as int));
    }
}

/// Trimming leaves nothing but an empty text or one that neither starts nor
/// ends with white space.
pub proof fn lemma_trim_result(s: Seq<char>)
    ensures
        trim(s).len() > 0 ==> is_trimmed_nonempty(trim(s)),
{
    let t = trim_start(s);
    lemma_trim_start_first(s);
    lemma_trim_end_prefix(t);
    if trim(s).len() > 0 {
        assert(trim(s)[0] == t[0]);
    }
}

/// Every value below the header of a tabular output is non-empty and carries
/// no surrounding white space.
pub proof fn lemma_values_after_header_trimmed(lines: Seq<Seq<char>>)
    ensures
        forall|k: int|
            0 <= k < values_after_header(lines).len() ==> is_trimmed_nonempty(
                #[trigger] values_after_header(lines)[k],
            ),
    decreases lines.len(),
{
    if lines.len() > 1 {
        lemma_values_after_header_trimmed(lines.drop_last());
        lemma_trim_result(lines.last());
        let rest = values_after_header(lines.drop_last());
        assert forall|k: int| 0 <= k < values_after_header(lines).len() implies is_trimmed_nonempty(
            #[trigger] values_after_header(lines)[k],
        ) by {
            if k < rest.len() {
                assert(values_after_header(lines)[k] == rest[k]);
            }
        }
    }
}

proof fn lemma_trim_start_suffix(s: Seq<char>)
    ensures
        trim_start(s).len() <= s.len(),
        trim_start(s) == s.subrange(s.len() - trim_start(s).len(), s.len() as int),
        forall|i: int| 0 <= i < s.len() - trim_start(s).len() ==> is_white_space(#[trigger] s[i]),
    decreases s.len(),
{
    if s.len() > 0 && is_white_space(s[0]) {
        let t = s.drop_first();
        lemma_trim_start_suffix(t);
        assert(trim_start(s) =~= s.subrange(s.len() - trim_start(s).len(), s.len() as int));
        assert forall|i: int| 0 <= i < s.len() - trim_start(s).len() implies is_white_space(
            #[trigger] s[i],
        ) by {
            if i > 0 {
                assert(s[i] == t[i - 1]);
            }
        }
    } else {
        assert(s =~= s.subrange(0, s.len() as int));
    }
}

proof fn lemma_trim_end_tail(s: Seq<char>)
    ensures
        forall|i: int| trim_end(s).len() <= i < s.len() ==> is_white_space(#[trigger] s[i]),
    decreases s.len(),
{
    if s.len() > 0 && is_white_space(s.last()) {
        lemma_trim_end_tail(s.drop_last());
        lemma_trim_end_prefix(s.drop_last());
        assert forall|i: int| trim_end(s).len() <= i < s.len() implies is_white_space(
            #[trigger] s[i],
        ) by {
            if i < s.len() - 1 {
                assert(s[i] == s.drop_last()[i]);
            }
        }
    }
}

/// `trim` removes exactly the surrounding white space: its result is a
/// contiguous piece of the text, everything before and after that piece is
/// white space, and the piece is either empty or neither starts nor ends with
/// white space.
pub proof fn lemma_trim_strips_white_space(s: Seq<char>)
    ensures
        exists|a: int, b: int|
            0 <= a <= b <= s.len() && trim(s) == s.subrange(a, b) && (forall|i: int|
                0 <= i < a ==> is_white_space(#[trigger] s[i])) && (forall|i: int|
                b <= i < s.len() ==> is_white_space(#[trigger] s[i])),
        trim(s).len() == 0 || is_trimmed_nonempty(trim(s)),
{
    let t = trim_start(s);
    lemma_trim_start_suffix(s);
    lemma_trim_end_prefix(t);
    lemma_trim_end_tail(t);
    lemma_trim_result(s);
    let a = s.len() - t.len();
    let b = a + trim(s).len();
    assert(trim(s) =~= s.subrange(a, b));
    assert forall|i: int| b <= i < s.len() implies is_white_space(#[trigger] s[i]) by {
        assert(s[i] == t[i - a]);
    }
}

/// The pieces of a text joined back together with newline characters.
pub open spec fn join_lines(pieces: Seq<Seq<char>>) -> Seq<char>
    decreases pieces.len(),
{
    if pieces.len() == 0 {
        Seq::empty()
    } else if pieces.len() == 1 {
        pieces[0]
    } else {
        join_lines(pieces.drop_last()) + seq!['\n'] + pieces.last()
    }
}

/// `split_lines` cuts a text exactly at its newline characters: no piece
/// holds a newline, and joining the pieces with newlines gives the text back.
pub proof fn lemma_split_lines_cuts_at_newlines(s: Seq<char>)
    ensures
        split_lines(s).len() >= 1,
        join_lines(split_lines(s)) == s,
        forall|k: int| 0 <= k < split_lines(s).len() ==> !(#[trigger] split_lines(s)[k]).contains('\n'),
    decreases s.len(),
{
    if s.len() > 0 {
        let init = s.drop_last();
        let c = s.last();
        let ls = split_lines(init);
        lemma_split_lines_cuts_at_newlines(init);
        if c == '\n' {
            assert(split_lines(s).drop_last() =~= ls);
            assert(join_lines(split_lines(s)) =~= s);
            assert forall|k: int| 0 <= k < split_lines(s).len() implies !(
            #[trigger] split_lines(s)[k]).contains('\n') by {
                if k < ls.len() {
                    assert(split_lines(s)[k] == ls[k]);
                } else {
                    assert(split_lines(s)[k] =~= Seq::<char>::empty());
                }
            }
        } else {
            let last = ls.last().push(c);
            if ls.len() == 1 {
                assert(s =~= init.push(c));
                assert(join_lines(split_lines(s)) =~= s);
            } else {
                let ss = split_lines(s);
                assert(ss.drop_last() =~= ls.drop_last());
                assert(ss.last() == last);
                assert(join_lines(ls) == join_lines(ls.drop_last()) + seq!['\n'] + ls.last());
                assert(join_lines(ss) == join_lines(ls.drop_last()) + seq!['\n'] + last);
                let x = join_lines(ls.drop_last()) + seq!['\n'];
                assert(s =~= init.push(c));
                assert((x + ls.last()).push(c) =~= x + ls.last().push(c));
                assert(join_lines(ss) =~= s);
            }
            assert forall|k: int| 0 <= k < split_lines(s).len() implies !(
            #[trigger] split_lines(s)[k]).contains('\n') by {
                if k < ls.len() - 1 {
                    assert(split_lines(s)[k] == ls[k]);
                } else {
                    assert(split_lines(s)[k] == last);
                    assert(!ls[ls.len() - 1].contains('\n'));
                    if last.contains('\n') {
                        let j = choose|j: int| 0 <= j < last.len() && last[j] == '\n';
                        if j < last.len() - 1 {
                            assert(ls.last()[j] == '\n');
                        }
                    }
                }
            }
        }
    }
}

/// The lines after the first one, each trimmed.
pub open spec fn trimmed_lines_after_first(lines: Seq<Seq<char>>) -> Seq<Seq<char>> {
    lines.skip(1).map_values(|l: Seq<char>| trim(l))
}

/// The non-empty texts among `texts`, in order.
pub open spec fn non_empty_texts(texts: Seq<Seq<char>>) -> Seq<Seq<char>> {
    texts.filter(|t: Seq<char>| t.len() > 0)
}

/// The values below the header are the lines after the first one, trimmed,
/// with the empty ones left out and the order kept.
pub proof fn lemma_values_after_header_filter(lines: Seq<Seq<char>>)
    requires
        lines.len() >= 1,
    ensures
        values_after_header(lines) == non_empty_texts(trimmed_lines_after_first(lines)),
    decreases lines.len(),
{
    reveal(Seq::filter);
    if lines.len() == 1 {
        assert(trimmed_lines_after_first(lines) =~= Seq::<Seq<char>>::empty());
    } else {
        let init = lines.drop_last();
        lemma_values_after_header_filter(init);
        let tl = trimmed_lines_after_first(lines);
        assert(tl.drop_last() =~= trimmed_lines_after_first(init));
        assert(tl.last() == trim(lines.last()));
    }
}

/// The values below the header of a tabular output, characterised by the
/// lines of the text: its lines after the first one, trimmed, with the empty
/// ones left out and the order kept.
pub proof fn lemma_tabular_values_are_trimmed_lines(text: Seq<char>)
    ensures
        tabular_values(text) == non_empty_texts(trimmed_lines_after_first(split_lines(text))),
{
    lemma_split_lines_cuts_at_newlines(text);
    lemma_values_after_header_filter(split_lines(text));
}

/// The first value below the header is the trimmed form of the first line
/// after the first that is not blank; there is none exactly when every line
/// after the first is blank.
pub proof fn lemma_values_after_header_first(lines: Seq<Seq<char>>)
    ensures
        values_after_header(lines).len() == 0 <==> (forall|j: int|
            1 <= j < lines.len() ==> trim(#[trigger] lines[j]).len() == 0),
        forall|i: int|
            1 <= i < lines.len() && trim(#[trigger] lines[i]).len() > 0 && (forall|j: int|
                1 <= j < i ==> trim(#[trigger] lines[j]).len() == 0) ==> values_after_header(
                lines,
            )[0] == trim(lines[i]),
    decreases lines.len(),
{
    if lines.len() > 1 {
        let init = lines.drop_last();
        lemma_values_after_header_first(init);
        let rest = values_after_header(init);
        assert forall|j: int| 1 <= j < init.len() implies #[trigger] init[j] == lines[j] by {}
        if rest.len() > 0 {
            assert(values_after_header(lines)[0] == rest[0]);
        }
        assert forall|i: int|
            1 <= i < lines.len() && trim(#[trigger] lines[i]).len() > 0 && (forall|j: int|
                1 <= j < i ==> trim(#[trigger] lines[j]).len() == 0) implies values_after_header(
            lines,
        )[0] == trim(lines[i]) by {
            if i < lines.len() - 1 {
                assert(init[i] == lines[i]);
                assert(trim(init[i]).len() > 0);
            } else {
                assert forall|j: int| 1 <= j < init.len() implies trim(#[trigger] init[j]).len()
                    == 0 by {
                    assert(init[j] == lines[j]);
                }
            }
        }
        if values_after_header(lines).len() == 0 {
            assert forall|j: int| 1 <= j < lines.len() implies trim(#[trigger] lines[j]).len()
                == 0 by {
                if j < lines.len() - 1 {
                    assert(init[j] == lines[j]);
                }
            }
        }
        if forall|j: int| 1 <= j < lines.len() ==> trim(#[trigger] lines[j]).len() == 0 {
            assert forall|j: int| 1 <= j < init.len() implies trim(#[trigger] init[j]).len()
                == 0 by {
                assert(init[j] == lines[j]);
            }
            assert(trim(lines[lines.len() - 1]).len() == 0);
        }
    }
}

} // verus!
