//! Texts that contracts speak of: decimal numbers and joined lists.
use vstd::prelude::*;
use vstd::string::StringExecFns;

verus! {

/// The decimal digit of `d`.
pub open spec fn digit(d: nat) -> char {
    (('0' as int) + (d as int)) as char
}

/// The decimal digits of `n`, the most significant one first.
pub open spec fn decimal_digits(n: nat) -> Seq<char>
    decreases n,
{
    if n < 10 {
        seq![digit(n)]
    } else {
        decimal_digits(n / 10).push(digit(n % 10))
    }
}

/// The decimal text of `n`: its digits, behind a minus sign where it is negative.
pub open spec fn decimal(n: int) -> Seq<char> {
    if n < 0 {
        seq!['-'] + decimal_digits((-n) as nat)
    } else {
        decimal_digits(n as nat)
    }
}

/// The texts of `parts` one after another, with `separator` between neighbours.
pub open spec fn joined(parts: Seq<Seq<char>>, separator: Seq<char>) -> Seq<char>
    decreases parts.len(),
{
    if parts.len() == 0 {
        Seq::empty()
    } else if parts.len() == 1 {
        parts[0]
    } else {
        joined(parts.drop_last(), separator) + separator + parts.last()
    }
}

/// The decimal texts of `ids`.
pub open spec fn decimals(ids: Seq<i64>) -> Seq<Seq<char>> {
    ids.map_values(|id: i64| decimal(id as int))
}

/// The contents of `texts`.
pub open spec fn text_views(texts: Seq<String>) -> Seq<Seq<char>> {
    texts.map_values(|text: String| text@)
}

/// The digits of a number are never absent and never hold a sign.
proof fn lemma_digits_unsigned(n: nat)
    ensures
        decimal_digits(n).len() > 0,
        decimal_digits(n)[0] != '-',
        n < 10 <==> decimal_digits(n).len() == 1,
    decreases n,
{
    if n >= 10 {
        lemma_digits_unsigned(n / 10);
    }
}

/// Different numbers have different digits.
proof fn lemma_digits_injective(a: nat, b: nat)
    requires
        decimal_digits(a) == decimal_digits(b),
    ensures
        a == b,
    decreases a,
{
    lemma_digits_unsigned(a);
    lemma_digits_unsigned(b);
    if a < 10 {
        assert(decimal_digits(a)[0] == digit(a));
        assert(decimal_digits(b)[0] == digit(b));
    } else {
        assert(decimal_digits(a).last() == digit(a % 10));
        assert(decimal_digits(b).last() == digit(b % 10));
        assert(decimal_digits(a).drop_last() == decimal_digits(a / 10));
        assert(decimal_digits(b).drop_last() == decimal_digits(b / 10));
        lemma_digits_injective(a / 10, b / 10);
    }
}

/// Two integers have the same decimal text only if they are equal, so an id is
/// known by its text.
pub proof fn decimal_identifies_number(a: int, b: int)
    ensures
        decimal(a) == decimal(b) <==> a == b,
{
    if decimal(a) == decimal(b) {
        if a >= 0 {
            lemma_digits_unsigned(a as nat);
        }
        if b >= 0 {
            lemma_digits_unsigned(b as nat);
        }
        if a < 0 {
            assert(decimal(a)[0] == '-');
        }
        if b < 0 {
            assert(decimal(b)[0] == '-');
        }
        if a < 0 {
            assert(decimal(a).skip(1) == decimal_digits((-a) as nat));
            assert(decimal(b).skip(1) == decimal_digits((-b) as nat));
            lemma_digits_injective((-a) as nat, (-b) as nat);
        } else {
            lemma_digits_injective(a as nat, b as nat);
        }
    }
}

fn digit_text(d: u64) -> (text: &'static str)
    requires
        d < 10,
    ensures
        text@ == seq![digit(d as nat)],
{
    proof {
        reveal_strlit("0");
        reveal_strlit("1");
        reveal_strlit("2");
        reveal_strlit("3");
        reveal_strlit("4");
        reveal_strlit("5");
        reveal_strlit("6");
        reveal_strlit("7");
        reveal_strlit("8");
        reveal_strlit("9");
    }
    let text = match d {
        0 => "0",
        1 => "1",
        2 => "2",
        3 => "3",
        4 => "4",
        5 => "5",
        6 => "6",
        7 => "7",
        8 => "8",
        _ => "9",
    };
    assert(text@ =~= seq![digit(d as nat)]);
    text
}

/// The decimal text of an unsigned number.
pub(crate) fn unsigned_text(n: u64) -> (text: String)
    ensures
        text@ == decimal(n as int),
    decreases n,
{
    let last = digit_text(n % 10);
    if n < 10 {
        last.to_owned()
    } else {
        let mut text = unsigned_text(n / 10);
        text.append(last);
        assert(text@ =~= decimal_digits(n as nat));
        text
    }
}

/// The decimal text of a signed number.
pub(crate) fn signed_text(n: i64) -> (text: String)
    ensures
        text@ == decimal(n as int),
{
    if n < 0 {
        let magnitude: u64 = (-(n + 1)) as u64 + 1;
        let mut text = "-".to_owned();
        let digits = unsigned_text(magnitude);
        proof {
            reveal_strlit("-");
        }
        text.append(digits.as_str());
        assert(text@ =~= decimal(n as int));
        text
    } else {
        unsigned_text(n as u64)
    }
}

/// The texts of `parts` one after another, with `separator` between neighbours.
pub(crate) fn join_texts(parts: &Vec<String>, separator: &str) -> (text: String)
    ensures
        text@ == joined(text_views(parts@), separator@),
{
    let ghost views = text_views(parts@);
    let mut text = String::new();
    let mut i: usize = 0;
    while i < parts.len()
        invariant
            i <= parts.len(),
            views == text_views(parts@),
            text@ == joined(views.take(i as int), separator@),
        decreases parts.len() - i,
    {
        let ghost before = text@;
        if i > 0 {
            text.append(separator);
        }
        text.append(parts[i].as_str());
        assert(views.take(i + 1).drop_last() =~= views.take(i as int));
        assert(text@ =~= joined(views.take(i + 1), separator@));
        i += 1;
    }
    assert(views.take(i as int) =~= views);
    text
}

/// The decimal texts of `ids`, separated by a comma and a space.
pub(crate) fn join_ids(ids: &Vec<i64>) -> (text: String)
    ensures
        text@ == joined(decimals(ids@), ", "@),
{
    let mut parts: Vec<String> = Vec::new();
    let mut i: usize = 0;
    while i < ids.len()
        invariant
            i <= ids.len(),
            text_views(parts@) == decimals(ids@.take(i as int)),
        decreases ids.len() - i,
    {
        let ghost before = parts@;
        parts.push(signed_text(ids[i]));
        assert(text_views(parts@) =~= text_views(before).push(decimal(ids[i as int] as int)));
        assert(decimals(ids@.take(i + 1)) =~= decimals(ids@.take(i as int)).push(
            decimal(ids[i as int] as int),
        ));
        i += 1;
    }
    assert(ids@.take(i as int) =~= ids@);
    join_texts(&parts, ", ")
}

/// The number that decimal digits stand for.
pub open spec fn digits_value(digits: Seq<char>) -> int
    decreases digits.len(),
{
    if digits.len() == 0 {
        0
    } else {
        digits_value(digits.drop_last()) * 10 + (digits.last() as int - '0' as int)
    }
}

/// The digits of a number stand for it, are decimal, and start with a zero only
/// where they are that zero alone.
pub proof fn digits_stand_for_their_number(n: nat)
    ensures
        digits_value(decimal_digits(n)) == n,
        decimal_digits(n).len() > 0,
        decimal_digits(n)[0] == '0' ==> decimal_digits(n).len() == 1,
        forall|i: int|
            0 <= i < decimal_digits(n).len() ==> '0' as int <= (#[trigger] decimal_digits(
                n,
            )[i]) as int <= '9' as int,
    decreases n,
{
    let digits = decimal_digits(n);
    if n < 10 {
        assert(digits.drop_last() =~= Seq::<char>::empty());
        assert(digits_value(digits.drop_last()) == 0);
        assert(digits.last() == digit(n));
    } else {
        digits_stand_for_their_number(n / 10);
        assert(digits.drop_last() =~= decimal_digits(n / 10));
        assert(digits.last() == digit(n % 10));
        lemma_digits_unsigned(n);
        assert(digits[0] == decimal_digits(n / 10)[0]);
        if digits[0] == '0' {
            lemma_leading_zero(n / 10);
        }
    }
}

proof fn lemma_leading_zero(n: nat)
    requires
        decimal_digits(n)[0] == '0',
    ensures
        n == 0,
    decreases n,
{
    if n < 10 {
        assert(decimal_digits(n)[0] == digit(n));
    } else {
        lemma_digits_unsigned(n / 10);
        assert(decimal_digits(n)[0] == decimal_digits(n / 10)[0]);
        lemma_leading_zero(n / 10);
    }
}

/// The decimal text of a number is the digits of its magnitude, behind a minus
/// sign exactly where it is negative.
pub proof fn decimal_texts_stand_for_their_number(n: int)
    ensures
        n >= 0 ==> digits_value(decimal(n)) == n && decimal(n)[0] != '-',
        n < 0 ==> decimal(n)[0] == '-' && digits_value(decimal(n).skip(1)) == -n,
        decimal(n).len() > 0,
        forall|i: int|
            1 <= i < decimal(n).len() ==> '0' as int <= (#[trigger] decimal(n)[i]) as int
                <= '9' as int,
{
    if n >= 0 {
        digits_stand_for_their_number(n as nat);
        lemma_digits_unsigned(n as nat);
    } else {
        digits_stand_for_their_number((-n) as nat);
        assert(decimal(n).skip(1) =~= decimal_digits((-n) as nat));
        assert forall|i: int| 1 <= i < decimal(n).len() implies '0' as int <= (
        #[trigger] decimal(n)[i]) as int <= '9' as int by {
            assert(decimal(n)[i] == decimal_digits((-n) as nat)[i - 1]);
        }
    }
}

/// Two lists of texts joined as one are each of them joined, with the separator
/// between them. A single text stands alone, and no text is empty.
pub proof fn joined_texts_follow_each_other(
    first: Seq<Seq<char>>,
    second: Seq<Seq<char>>,
    part: Seq<char>,
    separator: Seq<char>,
)
    requires
        first.len() > 0,
        second.len() > 0,
    ensures
        joined(first + second, separator) == joined(first, separator) + separator + joined(
            second,
            separator,
        ),
        joined(seq![part], separator) == part,
        joined(Seq::empty(), separator).len() == 0,
    decreases second.len(),
{
    let whole = first + second;
    assert(whole.last() == second.last());
    if second.len() == 1 {
        assert(whole.drop_last() =~= first);
    } else {
        let shorter = second.drop_last();
        joined_texts_follow_each_other(first, shorter, part, separator);
        assert(whole.drop_last() =~= first + shorter);
        assert(joined(whole, separator) =~= joined(first, separator) + separator + joined(
            second,
            separator,
        ));
    }
}

/// Lists of ids and of texts show every item at its place.
pub proof fn lists_show_every_item(ids: Seq<i64>, texts: Seq<String>)
    ensures
        decimals(ids).len() == ids.len(),
        forall|i: int| 0 <= i < ids.len() ==> #[trigger] decimals(ids)[i] == decimal(ids[i] as int),
        text_views(texts).len() == texts.len(),
        forall|i: int| 0 <= i < texts.len() ==> #[trigger] text_views(texts)[i] == texts[i]@,
{
}

} // verus!
