//! Small facts and helpers on strings, shared by the generators.

use vstd::prelude::*;

verus! {

/// The character views of a sequence of strings.
pub open spec fn string_views(list: Seq<String>) -> Seq<Seq<char>> {
    list.map_values(|s: String| s@)
}

/// `items` joined with `sep` between each two neighbours.
pub open spec fn join(items: Seq<Seq<char>>, sep: Seq<char>) -> Seq<char>
    decreases items.len(),
{
    if items.len() == 0 {
        Seq::empty()
    } else if items.len() == 1 {
        items[0]
    } else {
        join(items.drop_last(), sep) + sep + items.last()
    }
}

/// Each line followed by a newline, all concatenated.
pub open spec fn newline_terminated(lines: Seq<Seq<char>>) -> Seq<char>
    decreases lines.len(),
{
    if lines.len() == 0 {
        Seq::empty()
    } else {
        newline_terminated(lines.drop_last()) + lines.last() + "\n"@
    }
}

/// Whether `part` occurs in `text` at some position.
pub open spec fn contains_text(text: Seq<char>, part: Seq<char>) -> bool {
    exists|p: int| 0 <= p && p + part.len() <= text.len() && #[trigger] text.subrange(p, p + part.len()) == part
}

/// What occurs in `a` or in `b` occurs in `a + b`.
pub proof fn lemma_contains_text_concat(a: Seq<char>, b: Seq<char>, part: Seq<char>)
    ensures
        contains_text(a, part) ==> contains_text(a + b, part),
        contains_text(b, part) ==> contains_text(a + b, part),
{
    if contains_text(a, part) {
        let p = choose|p: int| 0 <= p && p + part.len() <= a.len() && #[trigger] a.subrange(p, p + part.len()) == part;
        assert((a + b).subrange(p, p + part.len()) =~= a.subrange(p, p + part.len()));
    }
    if contains_text(b, part) {
        let p = choose|p: int| 0 <= p && p + part.len() <= b.len() && #[trigger] b.subrange(p, p + part.len()) == part;
        assert((a + b).subrange(a.len() + p, a.len() + p + part.len()) =~= b.subrange(p, p + part.len()));
    }
}

/// A text contains itself.
pub proof fn lemma_contains_text_self(text: Seq<char>)
    ensures
        contains_text(text, text),
{
    let p: int = 0;
    assert(text.subrange(p, p + text.len()) =~= text);
}

/// Joining a single item gives that item; joining more gives, for each item
/// but the last, the item followed by the separator, then the last item:
/// the first item comes first, each later one follows a separator.
pub proof fn lemma_join_items(items: Seq<Seq<char>>, sep: Seq<char>)
    ensures
        items.len() == 1 ==> join(items, sep) == items[0],
        items.len() >= 2 ==> join(items, sep) == join(items.drop_last(), sep) + sep + items.last(),
        items.len() >= 1 ==> join(items, sep).take(items[0].len() as int) == items[0],
        forall|k: int| 0 <= k < items.len() ==> contains_text(join(items, sep), #[trigger] items[k]),
    decreases items.len(),
{
    if items.len() >= 1 {
        if items.len() >= 2 {
            lemma_join_items(items.drop_last(), sep);
            let prev = join(items.drop_last(), sep);
            assert(items.drop_last()[0] == items[0]);
            assert((prev + sep + items.last()).take(items[0].len() as int) =~= prev.take(
                items[0].len() as int,
            )) by {
                assert(prev.take(items[0].len() as int) == items[0]);
            }
            assert forall|k: int| 0 <= k < items.len() implies contains_text(
                join(items, sep),
                #[trigger] items[k],
            ) by {
                if k < items.len() - 1 {
                    assert(items.drop_last()[k] == items[k]);
                    lemma_contains_text_concat(prev, sep, items[k]);
                    lemma_contains_text_concat(prev + sep, items.last(), items[k]);
                } else {
                    lemma_contains_text_self(items.last());
                    lemma_contains_text_concat(prev + sep, items.last(), items[k]);
                }
            }
        } else {
            assert(items[0].take(items[0].len() as int) =~= items[0]);
            lemma_contains_text_self(items[0]);
        }
    }
}

pub(crate) proof fn lemma_join_push(items: Seq<Seq<char>>, sep: Seq<char>, x: Seq<char>)
    ensures
        join(items.push(x), sep) == if items.len() == 0 {
            x
        } else {
            join(items, sep) + sep + x
        },
{
    assert(items.push(x).drop_last() =~= items);
}

pub(crate) proof fn lemma_string_views_push(list: Seq<String>, s: String)
    ensures
        string_views(list.push(s)) == string_views(list).push(s@),
{
    assert(string_views(list.push(s)) =~= string_views(list).push(s@));
}

/// Whether `list` holds a string equal to `s`.
pub fn contains_string(list: &[String], s: &String) -> (res: bool)
    ensures
        res == string_views(list@).contains(s@),
{
    let mut i: usize = 0;
    while i < list.len()
        invariant
            i <= list.len(),
            forall|k: int| 0 <= k < i ==> list@[k]@ != s@,
        decreases list.len() - i,
    {
        if list[i] == *s {
            assert(string_views(list@)[i as int] == s@);
            return true;
        }
        i += 1;
    }
    proof {
        if string_views(list@).contains(s@) {
            let k = choose|k: int| 0 <= k < string_views(list@).len() && string_views(list@)[k] == s@;
            assert(list@[k]@ == s@);
        }
    }
    false
}

/// Whether `s` holds the character `c` (`str::contains` with a `char`).
pub fn contains_char(s: &str, c: char) -> (res: bool)
    ensures
        res == s@.contains(c),
{
    let n = s.unicode_len();
    let mut i: usize = 0;
    while i < n
        invariant
            n == s@.len(),
            i <= n,
            forall|k: int| 0 <= k < i ==> s@[k] != c,
        decreases n - i,
    {
        if s.get_char(i) == c {
            return true;
        }
        i += 1;
    }
    false
}

/// Appends the string `text` to `out`.
pub fn append_string(out: &mut String, text: &String)
    ensures
        final(out)@ == old(out)@ + text@,
{
    out.append(text.as_str());
}

/// `String::push`: appends one character.
#[verifier::external_body]
pub(crate) fn push_char(out: &mut String, c: char)
    ensures
        final(out)@ == old(out)@.push(c),
{
    out.push(c);
}

/// The character of a decimal digit.
pub open spec fn digit_char(d: nat) -> char {
    ((48 + d) as u8) as char
}

/// The decimal numeral of `n`, without leading zeros.
pub open spec fn decimal(n: nat) -> Seq<char>
    decreases n,
{
    if n < 10 {
        seq![digit_char(n)]
    } else {
        decimal(n / 10).push(digit_char(n % 10))
    }
}

/// Each decimal digit is the digit of the table `0123456789`.
pub proof fn lemma_digit_table(d: nat)
    requires
        d < 10,
    ensures
        digit_char(d) == "0123456789"@[d as int],
{
    reveal_strlit("0123456789");
    if d == 0 { assert(digit_char(d) == '0'); }
    else if d == 1 { assert(digit_char(d) == '1'); }
    else if d == 2 { assert(digit_char(d) == '2'); }
    else if d == 3 { assert(digit_char(d) == '3'); }
    else if d == 4 { assert(digit_char(d) == '4'); }
    else if d == 5 { assert(digit_char(d) == '5'); }
    else if d == 6 { assert(digit_char(d) == '6'); }
    else if d == 7 { assert(digit_char(d) == '7'); }
    else if d == 8 { assert(digit_char(d) == '8'); }
    else { assert(digit_char(d) == '9'); }
}

/// The decimal numeral of `n` ends in the digit of `n % 10`; what comes before
/// it is the numeral of `n / 10` when `n >= 10`, and nothing when `n < 10`.
pub proof fn lemma_decimal_digits(n: nat)
    ensures
        decimal(n).len() >= 1,
        decimal(n).last() == "0123456789"@[(n % 10) as int],
        n < 10 ==> decimal(n).len() == 1,
        n >= 10 ==> decimal(n).drop_last() == decimal(n / 10),
{
    lemma_digit_table(n % 10);
    if n >= 10 {
        assert(decimal(n) == decimal(n / 10).push(digit_char(n % 10)));
        assert(decimal(n).drop_last() =~= decimal(n / 10));
    }
}

/// Appends the decimal numeral of `n` (as `format!("{}", n)` writes it).
pub fn append_decimal(out: &mut String, n: u64)
    ensures
        final(out)@ == old(out)@ + decimal(n as nat),
    decreases n,
{
    if n >= 10 {
        append_decimal(out, n / 10);
    }
    let d: u8 = (n % 10) as u8;
    let c = (48u8 + d) as char;
    push_char(out, c);
    assert(old(out)@ + decimal(n as nat) =~= out@) by {
        if n >= 10 {
            assert(decimal(n as nat) == decimal((n / 10) as nat).push(digit_char((n % 10) as nat)));
        }
    }
}

} // verus!
