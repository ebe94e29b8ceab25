use vstd::prelude::*;

verus! {

/// The characters that `char::is_whitespace` accepts: those with the Unicode
/// `White_Space` property.
pub open spec fn is_space(c: char) -> bool {
    let u = c as u32;
    ||| 0x09 <= u <= 0x0d
    ||| u == 0x20
    ||| u == 0x85
    ||| u == 0xa0
    ||| u == 0x1680
    ||| 0x2000 <= u <= 0x200a
    ||| u == 0x2028
    ||| u == 0x2029
    ||| u == 0x202f
    ||| u == 0x205f
    ||| u == 0x3000
}

/// Whether `c` is a whitespace character (see [`is_space`]).
pub fn char_is_space(c: char) -> (b: bool)
    ensures
        b == is_space(c),
{
    let u = c as u32;
    (0x09 <= u && u <= 0x0d) || u == 0x20 || u == 0x85 || u == 0xa0 || u == 0x1680 || (0x2000
        <= u && u <= 0x200a) || u == 0x2028 || u == 0x2029 || u == 0x202f || u == 0x205f || u
        == 0x3000
}

/// The pieces of `s` between `'\n'` characters, in order; there is always
/// one more piece than there are newlines.
pub open spec fn split_lines(s: Seq<char>) -> Seq<Seq<char>>
    decreases s.len(),
{
    if s.len() == 0 {
        seq![Seq::empty()]
    } else {
        let prev = split_lines(s.drop_last());
        if s.last() == '\n' {
            prev.push(Seq::empty())
        } else {
            prev.update(prev.len() - 1, prev.last().push(s.last()))
        }
    }
}

/// The maximal runs of non-whitespace characters of `s`, in order.
pub open spec fn split_words(s: Seq<char>) -> Seq<Seq<char>>
    decreases s.len(),
{
    if s.len() == 0 {
        Seq::empty()
    } else {
        let prev = split_words(s.drop_last());
        let c = s.last();
        if is_space(c) {
            prev
        } else if s.len() >= 2 && !is_space(s[s.len() - 2]) {
            prev.update(prev.len() - 1, prev.last().push(c))
        } else {
            prev.push(seq![c])
        }
    }
}

/// The contents of a vector of character vectors.
pub open spec fn texts(v: Seq<Vec<char>>) -> Seq<Seq<char>> {
    v.map_values(|w: Vec<char>| w@)
}

pub proof fn lemma_split_lines_nonempty(s: Seq<char>)
    ensures
        split_lines(s).len() >= 1,
    decreases s.len(),
{
    if s.len() > 0 {
        lemma_split_lines_nonempty(s.drop_last());
    }
}

/// Splits `text` at its newlines (see [`split_lines`]).
pub fn lines_of(text: &Vec<char>) -> (r: Vec<Vec<char>>)
    ensures
        texts(r@) == split_lines(text@),
{
    let mut done: Vec<Vec<char>> = Vec::new();
    let mut cur: Vec<char> = Vec::new();
    let n = text.len();
    for i in 0..n
        invariant
            n == text@.len(),
            texts(done@).push(cur@) == split_lines(text@.take(i as int)),
    {
        let ghost s = text@.take(i + 1);
        assert(s.drop_last() =~= text@.take(i as int));
        proof {
            lemma_split_lines_nonempty(text@.take(i as int));
        }
        let c = text[i];
        if c == '\n' {
            let ghost old_done = done@;
            done.push(cur);
            cur = Vec::new();
            assert(texts(done@) =~= texts(old_done).push(texts(done@).last()));
            assert(texts(done@).push(cur@) =~= split_lines(s));
        } else {
            let ghost old_cur = cur@;
            cur.push(c);
            assert(texts(done@).push(cur@) =~= split_lines(s));
        }
    }
    assert(text@.take(n as int) =~= text@);
    let ghost old_done = done@;
    done.push(cur);
    assert(texts(done@) =~= texts(old_done).push(texts(done@).last()));
    done
}

/// Splits `line` into its whitespace-separated words (see [`split_words`]).
pub fn words_of(line: &Vec<char>) -> (r: Vec<Vec<char>>)
    ensures
        texts(r@) == split_words(line@),
        forall|i: int| 0 <= i < r@.len() ==> r@[i]@.len() > 0,
{
    let mut done: Vec<Vec<char>> = Vec::new();
    let mut cur: Vec<char> = Vec::new();
    let mut in_word = false;
    let n = line.len();
    for i in 0..n
        invariant
            n == line@.len(),
            in_word <==> (i > 0 && !is_space(line@[i - 1])),
            in_word ==> texts(done@).push(cur@) == split_words(line@.take(i as int)),
            in_word ==> cur@.len() > 0,
            !in_word ==> texts(done@) == split_words(line@.take(i as int)),
            !in_word ==> cur@.len() == 0,
            forall|k: int| 0 <= k < done@.len() ==> done@[k]@.len() > 0,
    {
        let ghost s = line@.take(i + 1);
        assert(s.drop_last() =~= line@.take(i as int));
        let c = line[i];
        if char_is_space(c) {
            if in_word {
                let ghost old_done = done@;
                done.push(cur);
                cur = Vec::new();
                assert(texts(done@) =~= texts(old_done).push(texts(done@).last()));
            }
            in_word = false;
        } else {
            let ghost old_cur = cur@;
            cur.push(c);
            if in_word {
                assert(texts(done@).push(cur@) =~= texts(done@).push(old_cur).update(
                    done@.len() as int,
                    old_cur.push(c),
                ));
            } else {
                assert(cur@ =~= seq![c]);
            }
            in_word = true;
            assert(texts(done@).push(cur@) =~= split_words(s));
        }
    }
    assert(line@.take(n as int) =~= line@);
    if in_word {
        let ghost old_done = done@;
        done.push(cur);
        assert(texts(done@) =~= texts(old_done).push(texts(done@).last()));
    }
    done
}

/// Why a decimal integer was refused, as `core::num::IntErrorKind` tells it.
#[derive(Debug, Clone, Copy, PartialEq, Eq, Structural)]
pub enum IntErrorKind {
    /// The text was empty.
    Empty,
    /// A character that is not a decimal digit, or a lone sign.
    InvalidDigit,
    /// The value is above `isize::MAX`.
    PosOverflow,
    /// The value is below `isize::MIN`.
    NegOverflow,
}

pub open spec fn is_digit(c: char) -> bool {
    48 <= c as u32 <= 57
}

pub open spec fn digit_value(c: char) -> int {
    c as u32 - 48
}

/// Reads `digits` from left to right onto `acc` (adding each digit, or
/// subtracting it when `negative`), failing at the first character that is
/// not a digit or that takes the value out of the range of `isize`.
pub open spec fn accumulate(acc: int, digits: Seq<char>, negative: bool) -> Result<int, IntErrorKind>
    decreases digits.len(),
{
    if digits.len() == 0 {
        Ok(acc)
    } else if !is_digit(digits[0]) {
        Err(IntErrorKind::InvalidDigit)
    } else {
        let next = if negative {
            acc * 10 - digit_value(digits[0])
        } else {
            acc * 10 + digit_value(digits[0])
        };
        if next > isize::MAX {
            Err(IntErrorKind::PosOverflow)
        } else if next < isize::MIN {
            Err(IntErrorKind::NegOverflow)
        } else {
            accumulate(next, digits.drop_first(), negative)
        }
    }
}

/// What `str::parse::<isize>` gives for `s`: an optional `+` or `-` sign
/// followed by decimal digits.
pub open spec fn parse_isize(s: Seq<char>) -> Result<int, IntErrorKind> {
    if s.len() == 0 {
        Err(IntErrorKind::Empty)
    } else if s.len() == 1 && (s[0] == '+' || s[0] == '-') {
        Err(IntErrorKind::InvalidDigit)
    } else if s[0] == '+' {
        accumulate(0, s.drop_first(), false)
    } else if s[0] == '-' {
        accumulate(0, s.drop_first(), true)
    } else {
        accumulate(0, s, false)
    }
}

proof fn lemma_accumulate_in_range(acc: int, digits: Seq<char>, negative: bool)
    requires
        isize::MIN <= acc <= isize::MAX,
    ensures
        accumulate(acc, digits, negative) matches Ok(v) ==> isize::MIN <= v <= isize::MAX,
    decreases digits.len(),
{
    if digits.len() > 0 && is_digit(digits[0]) {
        let next = if negative {
            acc * 10 - digit_value(digits[0])
        } else {
            acc * 10 + digit_value(digits[0])
        };
        if isize::MIN <= next <= isize::MAX {
            lemma_accumulate_in_range(next, digits.drop_first(), negative);
        }
    }
}

/// Every number that parses lies in the range of `isize`.
pub proof fn law_parse_in_range(s: Seq<char>)
    ensures
        parse_isize(s) matches Ok(v) ==> isize::MIN <= v <= isize::MAX,
{
    lemma_accumulate_in_range(0, s, false);
    if s.len() > 0 {
        lemma_accumulate_in_range(0, s.drop_first(), false);
        lemma_accumulate_in_range(0, s.drop_first(), true);
    }
}

/// An `isize` result read as a mathematical integer.
pub open spec fn widen(r: Result<isize, IntErrorKind>) -> Result<int, IntErrorKind> {
    match r {
        Ok(v) => Ok(v as int),
        Err(e) => Err(e),
    }
}

/// Parses the first `end` characters of `w` as an `isize` (see [`parse_isize`]).
pub fn parse_isize_prefix(w: &Vec<char>, end: usize) -> (r: Result<isize, IntErrorKind>)
    requires
        end <= w@.len(),
    ensures
        widen(r) == parse_isize(w@.take(end as int)),
{
    let ghost s = w@.take(end as int);
    if end == 0 {
        return Err(IntErrorKind::Empty);
    }
    let c0 = w[0];
    if end == 1 && (c0 == '+' || c0 == '-') {
        return Err(IntErrorKind::InvalidDigit);
    }
    let negative = c0 == '-';
    let start: usize = if c0 == '+' || c0 == '-' {
        1
    } else {
        0
    };
    let ghost digits = w@.subrange(start as int, end as int);
    assert(start == 1 ==> s.drop_first() =~= digits);
    assert(start == 0 ==> s =~= digits);
    let mut acc: i128 = 0;
    let mut i = start;
    while i < end
        invariant
            start <= i <= end <= w@.len(),
            isize::MIN <= acc <= isize::MAX,
            accumulate(acc as int, w@.subrange(i as int, end as int), negative) == accumulate(
                0,
                digits,
                negative,
            ),
            s == w@.take(end as int),
            parse_isize(s) == accumulate(0, digits, negative),
        decreases end - i,
    {
        let ghost rest = w@.subrange(i as int, end as int);
        assert(rest[0] == w@[i as int]);
        let c = w[i];
        let u = c as u32;
        if !(48 <= u && u <= 57) {
            return Err(IntErrorKind::InvalidDigit);
        }
        let d = (u - 48) as i128;
        let next: i128 = if negative {
            acc * 10 - d
        } else {
            acc * 10 + d
        };
        if next > isize::MAX as i128 {
            return Err(IntErrorKind::PosOverflow);
        }
        if next < isize::MIN as i128 {
            return Err(IntErrorKind::NegOverflow);
        }
        assert(rest.drop_first() =~= w@.subrange(i + 1, end as int));
        acc = next;
        i = i + 1;
    }
    assert(w@.subrange(end as int, end as int).len() == 0);
    Ok(acc as isize)
}

/// Whitespace in front of a line does not change its words.
pub proof fn law_words_ignore_leading_space(c: char, line: Seq<char>)
    requires
        is_space(c),
    ensures
        split_words(seq![c] + line) == split_words(line),
    decreases line.len(),
{
    let t = seq![c] + line;
    if line.len() == 0 {
        assert(t.drop_last() =~= Seq::<char>::empty());
        assert(split_words(Seq::<char>::empty()) == Seq::<Seq<char>>::empty());
        assert(split_words(t) == split_words(t.drop_last()));
    } else {
        assert(t.drop_last() =~= seq![c] + line.drop_last());
        law_words_ignore_leading_space(c, line.drop_last());
        assert(t.last() == line.last());
        if line.len() >= 2 {
            assert(t[t.len() - 2] == line[line.len() - 2]);
        } else {
            assert(t[t.len() - 2] == c);
        }
        assert(split_words(t.drop_last()) == split_words(line.drop_last()));
    }
}

} // verus!
