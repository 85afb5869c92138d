//! Character-level helpers shared by the assembler: whitespace, lines,
//! words, label names and unsigned byte literals.
use vstd::prelude::*;

verus! {

/// The Unicode `White_Space` property, as `char::is_whitespace` documents it.
pub open spec fn is_space_spec(c: char) -> bool {
    ||| ('\u{9}' <= c && c <= '\u{d}')
    ||| c == ' '
    ||| c == '\u{85}'
    ||| c == '\u{a0}'
    ||| c == '\u{1680}'
    ||| ('\u{2000}' <= c && c <= '\u{200a}')
    ||| c == '\u{2028}'
    ||| c == '\u{2029}'
    ||| c == '\u{202f}'
    ||| c == '\u{205f}'
    ||| c == '\u{3000}'
}

/// Whether `c` separates words on a line.
pub fn is_space(c: char) -> (r: bool)
    ensures
        r == is_space_spec(c),
{
    ('\u{9}' <= c && c <= '\u{d}') || c == ' ' || c == '\u{85}' || c == '\u{a0}' || c == '\u{1680}'
        || ('\u{2000}' <= c && c <= '\u{200a}') || c == '\u{2028}' || c == '\u{2029}'
        || c == '\u{202f}' || c == '\u{205f}' || c == '\u{3000}'
}

/// The characters of `s`, in order.
pub fn chars_of(s: &str) -> (r: Vec<char>)
    ensures
        r@ == s@,
{
    let mut r: Vec<char> = Vec::new();
    for c in it: s.chars()
        invariant
            r@ == it.seq().take(it.index() as int),
    {
        r.push(c);
    }
    r
}

/// The lines of `s`: the pieces between newline characters, so that a text
/// without any newline is one line, and a trailing newline ends in an empty one.
pub open spec fn lines_of(s: Seq<char>) -> Seq<Seq<char>>
    decreases s.len(),
{
    if s.len() == 0 {
        seq![Seq::empty()]
    } else {
        let p = lines_of(s.drop_last());
        if s.last() == '\n' {
            p.push(Seq::empty())
        } else {
            p.update(p.len() - 1, p.last().push(s.last()))
        }
    }
}

/// There is always at least one line.
proof fn lemma_lines_nonempty(s: Seq<char>)
    ensures
        lines_of(s).len() >= 1,
    decreases s.len(),
{
    if s.len() > 0 {
        lemma_lines_nonempty(s.drop_last());
    }
}

/// The character sequences held by a vector of character vectors.
pub open spec fn views_of(v: Seq<Vec<char>>) -> Seq<Seq<char>> {
    v.map_values(|w: Vec<char>| w@)
}

/// Splits `s` at each newline character.
pub fn split_lines(s: &Vec<char>) -> (r: Vec<Vec<char>>)
    ensures
        views_of(r@) == lines_of(s@),
{
    let mut done: Vec<Vec<char>> = Vec::new();
    let mut cur: Vec<char> = Vec::new();
    let mut i: usize = 0;
    while i < s.len()
        invariant
            i <= s.len(),
            lines_of(s@.take(i as int)) == views_of(done@).push(cur@),
        decreases s.len() - i,
    {
        let c = s[i];
        proof {
            assert(s@.take(i + 1).drop_last() == s@.take(i as int));
            lemma_lines_nonempty(s@.take(i as int));
        }
        let ghost before = views_of(done@);
        if c == '\n' {
            let ghost line = cur@;
            done.push(cur);
            cur = Vec::new();
            assert(views_of(done@) =~= before.push(line));
        } else {
            cur.push(c);
        }
        i = i + 1;
    }
    let ghost before = views_of(done@);
    let ghost line = cur@;
    done.push(cur);
    assert(views_of(done@) =~= before.push(line));
    assert(s@.take(s@.len() as int) == s@);
    done
}

/// The words of `s`: its maximal runs of non-whitespace characters, in order.
pub open spec fn words_of(s: Seq<char>) -> Seq<Seq<char>>
    decreases s.len(),
{
    if s.len() == 0 {
        Seq::empty()
    } else {
        let p = words_of(s.drop_last());
        let c = s.last();
        if is_space_spec(c) {
            p
        } else if s.len() >= 2 && !is_space_spec(s[s.len() - 2]) {
            p.update(p.len() - 1, p.last().push(c))
        } else {
            p.push(seq![c])
        }
    }
}

/// Splits `s` into its words.
pub fn split_words(s: &Vec<char>) -> (r: Vec<Vec<char>>)
    ensures
        views_of(r@) == words_of(s@),
{
    let mut done: Vec<Vec<char>> = Vec::new();
    let mut cur: Vec<char> = Vec::new();
    let mut i: usize = 0;
    while i < s.len()
        invariant
            i <= s.len(),
            cur@.len() > 0 <==> (i > 0 && !is_space_spec(s@[i - 1])),
            words_of(s@.take(i as int)) == if cur@.len() > 0 {
                views_of(done@).push(cur@)
            } else {
                views_of(done@)
            },
        decreases s.len() - i,
    {
        let c = s[i];
        proof {
            assert(s@.take(i + 1).drop_last() == s@.take(i as int));
        }
        let ghost before = views_of(done@);
        if is_space(c) {
            if cur.len() > 0 {
                let ghost word = cur@;
                done.push(cur);
                cur = Vec::new();
                assert(views_of(done@) =~= before.push(word));
            }
        } else {
            let ghost prev = cur@;
            cur.push(c);
            proof {
                if prev.len() > 0 {
                    assert(before.push(prev).update(before.len() as int, cur@) =~= before.push(
                        cur@,
                    ));
                } else {
                    assert(cur@ =~= seq![c]);
                }
            }
        }
        i = i + 1;
    }
    assert(s@.take(s@.len() as int) == s@);
    if cur.len() > 0 {
        let ghost before = views_of(done@);
        let ghost word = cur@;
        done.push(cur);
        assert(views_of(done@) =~= before.push(word));
    }
    done
}

/// `w` with every trailing colon removed.
pub open spec fn trim_colons(w: Seq<char>) -> Seq<char>
    decreases w.len(),
{
    if w.len() > 0 && w.last() == ':' {
        trim_colons(w.drop_last())
    } else {
        w
    }
}

/// The name that a label definition `w` gives: the word without its trailing colons.
pub fn label_name(w: &Vec<char>) -> (r: Vec<char>)
    ensures
        r@ == trim_colons(w@),
{
    let mut n: usize = w.len();
    assert(w@.take(n as int) == w@);
    while n > 0 && w[n - 1] == ':'
        invariant
            n <= w.len(),
            trim_colons(w@) == trim_colons(w@.take(n as int)),
        decreases n,
    {
        assert(w@.take(n as int).drop_last() == w@.take(n - 1));
        n = n - 1;
    }
    let mut r: Vec<char> = Vec::new();
    let mut i: usize = 0;
    while i < n
        invariant
            i <= n <= w.len(),
            r@ == w@.take(i as int),
        decreases n - i,
    {
        r.push(w[i]);
        i = i + 1;
        assert(r@ =~= w@.take(i as int));
    }
    r
}

/// Whether every character of `s` is an ASCII decimal digit, and there is one at least.
pub open spec fn is_digits(s: Seq<char>) -> bool {
    s.len() > 0 && forall|i: int| 0 <= i < s.len() ==> '0' <= #[trigger] s[i] <= '9'
}

/// The number that the decimal digits `s` write.
pub open spec fn digits_value(s: Seq<char>) -> int
    decreases s.len(),
{
    if s.len() == 0 {
        0
    } else {
        digits_value(s.drop_last()) * 10 + (s.last() as int - '0' as int)
    }
}

/// What `str::parse::<u8>` makes of `s`: decimal digits after an optional
/// plus sign, of a value below 256.
pub open spec fn byte_literal(s: Seq<char>) -> Option<u8> {
    let d = if s.len() > 0 && s[0] == '+' {
        s.drop_first()
    } else {
        s
    };
    if is_digits(d) && digits_value(d) <= 255 {
        Some(digits_value(d) as u8)
    } else {
        None
    }
}

/// Reads an unsigned byte written in decimal.
pub fn parse_byte(s: &Vec<char>) -> (r: Option<u8>)
    ensures
        r == byte_literal(s@),
{
    let start: usize = if s.len() > 0 && s[0] == '+' {
        1
    } else {
        0
    };
    let ghost d = s@.skip(start as int);
    assert(d == if s@.len() > 0 && s@[0] == '+' { s@.drop_first() } else { s@ });
    if start == s.len() {
        assert(d.len() == 0);
        return None;
    }
    let mut value: u32 = 0;
    let mut too_big: bool = false;
    let mut i: usize = start;
    while i < s.len()
        invariant
            start <= i <= s.len(),
            d == s@.skip(start as int),
            d == if s@.len() > 0 && s@[0] == '+' {
                s@.drop_first()
            } else {
                s@
            },
            forall|j: int| 0 <= j < i - start ==> '0' <= #[trigger] d[j] <= '9',
            too_big <==> digits_value(d.take(i - start)) > 255,
            !too_big ==> value == digits_value(d.take(i - start)),
        decreases s.len() - i,
    {
        let c = s[i];
        if c < '0' || c > '9' {
            assert(d[i - start] == c);
            return None;
        }
        assert(d.take(i + 1 - start).drop_last() == d.take(i - start));
        let digit = (c as u32) - ('0' as u32);
        if !too_big {
            value = value * 10 + digit;
            if value > 255 {
                too_big = true;
            }
        }
        i = i + 1;
    }
    assert(d.take(i - start) == d);
    if too_big {
        None
    } else {
        Some(value as u8)
    }
}

/// Whether two character vectors hold the same characters.
pub fn same_chars(a: &Vec<char>, b: &Vec<char>) -> (r: bool)
    ensures
        r == (a@ == b@),
{
    if a.len() != b.len() {
        return false;
    }
    let mut i: usize = 0;
    while i < a.len()
        invariant
            i <= a.len() == b.len(),
            forall|j: int| 0 <= j < i ==> a@[j] == b@[j],
        decreases a.len() - i,
    {
        if a[i] != b[i] {
            return false;
        }
        i = i + 1;
    }
    assert(a@ =~= b@);
    true
}

} // verus!
