//! Decimal numbers and separated fields in text.

use vstd::prelude::*;
use vstd::string::StringExecFns;

verus! {

/// Whether `c` is one of `0` to `9`.
pub open spec fn is_digit(c: char) -> bool {
    '0' <= c <= '9'
}

/// The digit that stands for `d`, a number below ten.
pub open spec fn digit(d: nat) -> char {
    ('0' as nat + d) as char
}

/// The number that a string of digits stands for.
pub open spec fn digits_value(s: Seq<char>) -> nat
    decreases s.len(),
{
    if s.len() == 0 {
        0
    } else {
        10 * digits_value(s.drop_last()) + (s.last() as nat - '0' as nat) as nat
    }
}

/// The digits of an unsigned number: all of the text, or what follows a leading plus sign.
pub open spec fn unsigned_body(s: Seq<char>) -> Seq<char> {
    if s.len() > 0 && s[0] == '+' {
        s.drop_first()
    } else {
        s
    }
}

/// The unsigned decimal number that the text stands for, if it is one: one or more digits, with
/// an optional plus sign in front.
pub open spec fn unsigned_value(s: Seq<char>) -> Option<nat> {
    let body = unsigned_body(s);
    if body.len() > 0 && (forall|i: int| 0 <= i < body.len() ==> is_digit(#[trigger] body[i])) {
        Some(digits_value(body))
    } else {
        None
    }
}

/// The unsigned decimal number that the text stands for, if it is one and is at most `max`.
pub open spec fn unsigned_up_to(s: Seq<char>, max: nat) -> Option<nat> {
    match unsigned_value(s) {
        Some(v) => if v <= max {
            Some(v)
        } else {
            None
        },
        None => None,
    }
}

/// The text of `n` in decimal, without leading zeros.
pub open spec fn decimal(n: nat) -> Seq<char>
    decreases n,
{
    if n < 10 {
        seq![digit(n)]
    } else {
        decimal(n / 10).push(digit(n % 10))
    }
}

/// The fields of a text: what lies before, between and after the separators. A text without a
/// separator is one field.
pub open spec fn fields(s: Seq<char>, separator: char) -> Seq<Seq<char>>
    decreases s.len(),
{
    if s.len() == 0 {
        seq![Seq::empty()]
    } else {
        let before = fields(s.drop_last(), separator);
        if s.last() == separator {
            before.push(Seq::empty())
        } else {
            before.drop_last().push(before.last().push(s.last()))
        }
    }
}

/// The contents of a list of texts.
pub open spec fn contents(list: Seq<Vec<char>>) -> Seq<Seq<char>> {
    list.map_values(|text: Vec<char>| text@)
}

/// Splits a text into its fields.
pub fn split_fields(s: &str, separator: char) -> (list: Vec<Vec<char>>)
    ensures
        contents(list@) == fields(s@, separator),
{
    let mut list: Vec<Vec<char>> = Vec::new();
    let mut field: Vec<char> = Vec::new();
    assert(contents(list@).push(field@) =~= fields(s@.take(0), separator));
    for c in it: s.chars()
        invariant
            it.seq() == s@,
            contents(list@).push(field@) == fields(s@.take(it.index()), separator),
    {
        let ghost n = it.index();
        let ghost before = contents(list@).push(field@);
        assert(s@.take(n + 1).drop_last() =~= s@.take(n));
        assert(s@.take(n + 1).last() == c);
        if c == separator {
            list.push(field);
            field = Vec::new();
            assert(contents(list@) =~= before);
        } else {
            field.push(c);
            assert(before.drop_last() =~= contents(list@));
        }
    }
    let ghost before = contents(list@).push(field@);
    list.push(field);
    assert(contents(list@) =~= before);
    assert(s@.take(s@.len() as int) =~= s@);
    list
}

/// A line without the carriage return before its line feed.
pub open spec fn without_return(line: Seq<char>) -> Seq<char> {
    if line.len() > 0 && line.last() == '\r' {
        line.drop_last()
    } else {
        line
    }
}

/// The lines of a text that end in a line feed, without their endings.
pub open spec fn ended_lines(s: Seq<char>) -> Seq<Seq<char>> {
    fields(s, '\n').drop_last().map_values(|line: Seq<char>| without_return(line))
}

/// The lines of a text, without their endings: a line feed, or a carriage return and a line feed.
/// What follows the last line feed is a line of its own, unless it is empty.
pub open spec fn lines(s: Seq<char>) -> Seq<Seq<char>> {
    let rest = fields(s, '\n').last();
    if rest.len() > 0 {
        ended_lines(s).push(rest)
    } else {
        ended_lines(s)
    }
}

/// Splits a text into its lines.
pub fn split_lines(s: &str) -> (list: Vec<Vec<char>>)
    ensures
        contents(list@) == lines(s@),
{
    let mut list: Vec<Vec<char>> = Vec::new();
    let mut line: Vec<char> = Vec::new();
    assert(contents(list@) =~= ended_lines(s@.take(0)));
    for c in it: s.chars()
        invariant
            it.seq() == s@,
            fields(s@.take(it.index()), '\n').len() > 0,
            contents(list@) == ended_lines(s@.take(it.index())),
            line@ == fields(s@.take(it.index()), '\n').last(),
    {
        let ghost n = it.index();
        let ghost before = fields(s@.take(n), '\n');
        let ghost after = fields(s@.take(n + 1), '\n');
        let ghost listed = contents(list@);
        assert(s@.take(n + 1).drop_last() =~= s@.take(n));
        assert(s@.take(n + 1).last() == c);
        if c == '\n' {
            assert(after.drop_last() =~= before);
            assert(before =~= before.drop_last().push(line@));
            let ghost whole = line@;
            if line.len() > 0 && line[line.len() - 1] == '\r' {
                line.pop();
            }
            assert(line@ =~= without_return(whole));
            list.push(line);
            line = Vec::new();
            assert(contents(list@) =~= listed.push(without_return(whole)));
            assert(ended_lines(s@.take(n + 1)) =~= listed.push(without_return(whole)));
        } else {
            line.push(c);
            assert(after.drop_last() =~= before.drop_last());
        }
    }
    assert(s@.take(s@.len() as int) =~= s@);
    let ghost listed = contents(list@);
    if line.len() > 0 {
        let ghost rest = line@;
        list.push(line);
        assert(contents(list@) =~= listed.push(rest));
    }
    list
}

/// The characters of a text.
pub fn characters(s: &str) -> (list: Vec<char>)
    ensures
        list@ == s@,
{
    let mut list: Vec<char> = Vec::new();
    for c in it: s.chars()
        invariant
            it.seq() == s@,
            list@ == s@.take(it.index()),
    {
        list.push(c);
    }
    list
}

/// Whether the character occurs in the text.
pub fn contains_char(s: &str, wanted: char) -> (found: bool)
    ensures
        found == s@.contains(wanted),
{
    for c in it: s.chars()
        invariant
            it.seq() == s@,
            forall|i: int| 0 <= i < it.index() ==> s@[i] != wanted,
    {
        if c == wanted {
            assert(s@[it.index()] == wanted);
            return true;
        }
    }
    false
}

/// A number is at least as large as any number that its first digits stand for.
proof fn lemma_prefix_value(s: Seq<char>, n: int)
    requires
        0 <= n <= s.len(),
        forall|i: int| 0 <= i < s.len() ==> is_digit(#[trigger] s[i]),
    ensures
        digits_value(s.take(n)) <= digits_value(s),
    decreases s.len(),
{
    if n < s.len() {
        lemma_prefix_value(s.drop_last(), n);
        assert(s.drop_last().take(n) =~= s.take(n));
    } else {
        assert(s.take(n) =~= s);
    }
}

/// Reads an unsigned decimal number of at most `max`.
pub fn parse_unsigned(s: &Vec<char>, max: u64) -> (number: Option<u64>)
    ensures
        match number {
            Some(v) => unsigned_up_to(s@, max as nat) == Some(v as nat),
            None => unsigned_up_to(s@, max as nat) is None,
        },
{
    let start: usize = if s.len() > 0 && s[0] == '+' {
        1
    } else {
        0
    };
    let ghost body = unsigned_body(s@);
    assert(body =~= s@.skip(start as int));
    if start == s.len() {
        return None;
    }
    let mut value: u64 = 0;
    let mut i: usize = start;
    assert(body.take(0) =~= Seq::<char>::empty());
    while i < s.len()
        invariant
            start <= i <= s.len(),
            body == unsigned_body(s@),
            body == s@.skip(start as int),
            body.len() > 0,
            forall|j: int| 0 <= j < i - start ==> is_digit(#[trigger] body[j]),
            value == digits_value(body.take(i - start)),
            value <= max,
        decreases s.len() - i,
    {
        let c = s[i];
        assert(body[i - start] == c);
        if c < '0' || c > '9' {
            assert(!is_digit(body[i - start]));
            return None;
        }
        let d: u64 = (c as u32 - '0' as u32) as u64;
        let ghost n = i - start + 1;
        assert(body.take(n).drop_last() =~= body.take(n - 1));
        assert(digits_value(body.take(n)) == 10 * value + d);
        if value > (max - d.min(max)) / 10 || d > max {
            proof {
                assert(10 * value + d > max);
                if forall|j: int| 0 <= j < body.len() ==> is_digit(#[trigger] body[j]) {
                    lemma_prefix_value(body, n);
                }
            }
            return None;
        }
        value = value * 10 + d;
        i = i + 1;
    }
    assert(body.take(i - start) =~= body);
    Some(value)
}

/// One digit as text.
fn digit_text(d: usize) -> (text: &'static str)
    requires
        d < 10,
    ensures
        text@ == seq![digit(d as nat)],
{
    proof {
        reveal_strlit("0");
        reveal_strlit("1");
        reveal_strlit("2");
        reveal_strlit("3");
        reveal_strlit("4");
        reveal_strlit("5");
        reveal_strlit("6");
        reveal_strlit("7");
        reveal_strlit("8");
        reveal_strlit("9");
    }
    match d {
        0 => "0",
        1 => "1",
        2 => "2",
        3 => "3",
        4 => "4",
        5 => "5",
        6 => "6",
        7 => "7",
        8 => "8",
        _ => "9",
    }
}

/// Writes a number in decimal at the end of a text.
pub fn push_decimal(out: &mut String, n: usize)
    ensures
        final(out)@ == old(out)@ + decimal(n as nat),
    decreases n,
{
    if n >= 10 {
        push_decimal(out, n / 10);
    }
    out.append(digit_text(n % 10));
    assert(n >= 10 ==> old(out)@ + decimal(n as nat / 10) + seq![digit(n as nat % 10)] =~= old(out)@
        + decimal(n as nat));
}

/// Reading a number that was written in decimal gives the number back.
pub proof fn law_decimal_round_trip(n: nat)
    ensures
        unsigned_value(decimal(n)) == Some(n),
{
    lemma_decimal(n);
}

/// Decimal text is digits only, and they stand for the number.
proof fn lemma_decimal(n: nat)
    ensures
        decimal(n).len() > 0,
        forall|i: int| 0 <= i < decimal(n).len() ==> is_digit(#[trigger] decimal(n)[i]),
        digits_value(decimal(n)) == n,
    decreases n,
{
    if n >= 10 {
        lemma_decimal(n / 10);
        assert(decimal(n).drop_last() =~= decimal(n / 10));
    } else {
        assert(decimal(n).drop_last() =~= Seq::<char>::empty());
        assert(digits_value(Seq::<char>::empty()) == 0);
        assert(decimal(n).last() == digit(n));
    }
}

/// Texts one after the other, with a separator between each two.
pub open spec fn joined(list: Seq<Seq<char>>, separator: char) -> Seq<char>
    decreases list.len(),
{
    if list.len() == 0 {
        Seq::empty()
    } else if list.len() == 1 {
        list[0]
    } else {
        joined(list.drop_last(), separator) + seq![separator] + list.last()
    }
}

/// Texts one after the other, each with a line feed behind it.
pub open spec fn fed(list: Seq<Seq<char>>) -> Seq<char>
    decreases list.len(),
{
    if list.len() == 0 {
        Seq::empty()
    } else {
        fed(list.drop_last()) + list.last() + seq!['\n']
    }
}

/// A text without the separator goes on with the last field of what stands before it.
proof fn lemma_fields_continued(s: Seq<char>, t: Seq<char>, separator: char)
    requires
        !t.contains(separator),
    ensures
        fields(s, separator).len() > 0,
        fields(s + t, separator) == fields(s, separator).drop_last().push(
            fields(s, separator).last() + t,
        ),
    decreases t.len(), s.len(),
{
    if t.len() == 0 {
        if s.len() > 0 {
            lemma_fields_continued(s.drop_last(), t, separator);
        }
        assert(s + t =~= s);
        let list = fields(s, separator);
        assert(list.last() + t =~= list.last());
        assert(list =~= list.drop_last().push(list.last()));
    } else {
        let short = t.drop_last();
        assert(t[t.len() - 1] == t.last());
        assert(forall|i: int| 0 <= i < short.len() ==> short[i] == t[i]);
        lemma_fields_continued(s, short, separator);
        assert((s + t).drop_last() =~= s + short);
        assert((s + t).last() == t.last());
        let before = fields(s + short, separator);
        let list = fields(s, separator);
        assert(before.drop_last() =~= list.drop_last());
        assert((list.last() + short).push(t.last()) =~= list.last() + t);
    }
}

/// A separator and a text without one add that text to the fields.
proof fn lemma_fields_added(s: Seq<char>, t: Seq<char>, separator: char)
    requires
        !t.contains(separator),
    ensures
        fields(s + seq![separator] + t, separator) == fields(s, separator).push(t),
{
    let longer = s + seq![separator];
    assert(longer.drop_last() =~= s);
    assert(longer.last() == separator);
    lemma_fields_continued(longer, t, separator);
    let list = fields(s, separator).push(Seq::<char>::empty());
    assert(list.drop_last() =~= fields(s, separator));
    assert(list.last() + t =~= t);
}

/// Texts that hold no separator, joined by separators and split again, are the same texts.
pub proof fn law_fields_of_joined(list: Seq<Seq<char>>, separator: char)
    requires
        list.len() > 0,
        forall|i: int| 0 <= i < list.len() ==> !(#[trigger] list[i]).contains(separator),
    ensures
        fields(joined(list, separator), separator) == list,
    decreases list.len(),
{
    if list.len() == 1 {
        let nothing = Seq::<char>::empty();
        lemma_fields_continued(nothing, list[0], separator);
        assert(nothing + list[0] =~= list[0]);
        assert(fields(nothing, separator) =~= seq![nothing]);
        assert(fields(list[0], separator) =~= list);
    } else {
        let front = list.drop_last();
        assert(forall|i: int| 0 <= i < front.len() ==> front[i] == list[i]);
        law_fields_of_joined(front, separator);
        assert(list[list.len() - 1] == list.last());
        lemma_fields_added(joined(front, separator), list.last(), separator);
        assert(front.push(list.last()) =~= list);
    }
}

/// The fields of any text hold no separator, and joined again they are the text.
pub proof fn law_fields_joined(s: Seq<char>, separator: char)
    ensures
        fields(s, separator).len() > 0,
        forall|i: int|
            0 <= i < fields(s, separator).len() ==> !(#[trigger] fields(s, separator)[i]).contains(
                separator,
            ),
        joined(fields(s, separator), separator) == s,
    decreases s.len(),
{
    let list = fields(s, separator);
    if s.len() == 0 {
        assert(joined(list, separator) =~= s);
    } else {
        let short = s.drop_last();
        law_fields_joined(short, separator);
        let before = fields(short, separator);
        if s.last() == separator {
            assert(list.drop_last() =~= before);
            assert(joined(list, separator) =~= s);
        } else {
            let front = before.drop_last();
            assert(before[before.len() - 1] == before.last());
            let last = before.last().push(s.last());
            assert(list.last() == last);
            assert(list.drop_last() =~= front);
            assert forall|i: int| 0 <= i < list.len() implies !(#[trigger] list[i]).contains(
                separator,
            ) by {
                if i < front.len() {
                    assert(list[i] == before[i]);
                } else if last.contains(separator) {
                    let k = choose|k: int| 0 <= k < last.len() && last[k] == separator;
                    assert(before.last()[k] == separator);
                }
            }
            if before.len() > 1 {
                assert(joined(list, separator) =~= joined(before, separator).push(s.last()));
            } else {
                assert(joined(before, separator) == before[0]);
                assert(joined(list, separator) =~= s);
            }
            assert(joined(list, separator) =~= s);
        }
    }
}

/// What [`split_fields`] gives is the list of texts that its argument was joined from.
pub proof fn law_split_fields(
    list: Seq<Seq<char>>,
    separator: char,
    text: &str,
    parts: Vec<Vec<char>>,
)
    requires
        list.len() > 0,
        forall|i: int| 0 <= i < list.len() ==> !(#[trigger] list[i]).contains(separator),
        text@ == joined(list, separator),
        call_ensures(split_fields, (text, separator), parts),
    ensures
        parts@.len() == list.len(),
        forall|i: int| 0 <= i < list.len() ==> (#[trigger] parts@[i])@ == list[i],
{
    law_fields_of_joined(list, separator);
    assert(contents(parts@).len() == parts@.len());
    assert forall|i: int| 0 <= i < list.len() implies (#[trigger] parts@[i])@ == list[i] by {
        assert(contents(parts@)[i] == parts@[i]@);
    }
}

/// Texts with line feeds behind them, and what follows the last one, are its fields.
proof fn lemma_fields_of_fed(list: Seq<Seq<char>>, rest: Seq<char>)
    requires
        forall|i: int| 0 <= i < list.len() ==> !(#[trigger] list[i]).contains('\n'),
        !rest.contains('\n'),
    ensures
        fields(fed(list) + rest, '\n') == list.push(rest),
    decreases list.len(),
{
    let nothing = Seq::<char>::empty();
    if list.len() == 0 {
        lemma_fields_continued(nothing, rest, '\n');
        assert(fields(nothing, '\n') =~= seq![nothing]);
        assert(nothing + rest =~= rest);
        assert(fields(rest, '\n') =~= list.push(rest));
        assert(fed(list) + rest =~= rest);
    } else {
        let front = list.drop_last();
        let last = list.last();
        assert(list[list.len() - 1] == last);
        assert(forall|i: int| 0 <= i < front.len() ==> front[i] == list[i]);
        lemma_fields_of_fed(front, last);
        lemma_fields_added(fed(front) + last, rest, '\n');
        assert(fed(list) + rest =~= fed(front) + last + seq!['\n'] + rest);
        assert(front.push(last) =~= list);
    }
}

/// The lines of texts that hold no line feed, each with a line feed behind it, and of what follows
/// the last one: each text is its own line, without one carriage return at its end if it has one;
/// and what follows is a line, whole, unless it is empty. Nothing else is lost.
pub proof fn law_lines_of_fed(list: Seq<Seq<char>>, rest: Seq<char>)
    requires
        forall|i: int| 0 <= i < list.len() ==> !(#[trigger] list[i]).contains('\n'),
        !rest.contains('\n'),
    ensures
        ({
            let found = lines(fed(list) + rest);
            &&& found.len() == list.len() + (if rest.len() > 0 {
                1int
            } else {
                0int
            })
            &&& forall|i: int|
                0 <= i < list.len() ==> {
                    ||| #[trigger] list[i] == found[i].push('\r')
                    ||| list[i] == found[i] && (list[i].len() == 0 || list[i].last() != '\r')
                }
            &&& rest.len() > 0 ==> found.last() == rest
        }),
{
    lemma_fields_of_fed(list, rest);
    let whole = list.push(rest);
    assert(whole.drop_last() =~= list);
    let found = lines(fed(list) + rest);
    assert forall|i: int| 0 <= i < list.len() implies {
        ||| #[trigger] list[i] == found[i].push('\r')
        ||| list[i] == found[i] && (list[i].len() == 0 || list[i].last() != '\r')
    } by {
        assert(found[i] == without_return(list[i]));
        if list[i].len() > 0 && list[i].last() == '\r' {
            assert(list[i].drop_last().push('\r') =~= list[i]);
        }
    }
}

/// Splitting into lines loses nothing but line endings: texts that hold no line feed and do not
/// end in a carriage return, written one after the other with a line feed behind each, are the
/// lines that [`split_lines`] gives, whatever their lengths.
pub proof fn law_split_lines(list: Seq<Seq<char>>, text: &str, parts: Vec<Vec<char>>)
    requires
        forall|i: int| 0 <= i < list.len() ==> !(#[trigger] list[i]).contains('\n'),
        forall|i: int|
            0 <= i < list.len() && list[i].len() > 0 ==> (#[trigger] list[i]).last() != '\r',
        text@ == fed(list),
        call_ensures(split_lines, (text,), parts),
    ensures
        parts@.len() == list.len(),
        forall|i: int| 0 <= i < list.len() ==> (#[trigger] parts@[i])@ == list[i],
{
    let nothing = Seq::<char>::empty();
    law_lines_of_fed(list, nothing);
    assert(fed(list) + nothing =~= fed(list));
    assert(contents(parts@).len() == parts@.len());
    assert forall|i: int| 0 <= i < list.len() implies (#[trigger] parts@[i])@ == list[i] by {
        assert(contents(parts@)[i] == parts@[i]@);
        if list[i] == parts@[i]@.push('\r') {
            assert(list[i].last() == '\r');
        }
    }
}

/// Lines that end in a carriage return and a line feed lose both, and what follows the last line
/// feed is a line as it stands: so [`split_lines`] has it.
pub proof fn law_split_line_endings(
    list: Seq<Seq<char>>,
    rest: Seq<char>,
    text: &str,
    parts: Vec<Vec<char>>,
)
    requires
        forall|i: int| 0 <= i < list.len() ==> !(#[trigger] list[i]).contains('\n'),
        !rest.contains('\n'),
        text@ == fed(list) + rest,
        call_ensures(split_lines, (text,), parts),
    ensures
        parts@.len() == list.len() + (if rest.len() > 0 {
            1int
        } else {
            0int
        }),
        forall|i: int|
            0 <= i < list.len() ==> {
                ||| #[trigger] list[i] == parts@[i]@.push('\r')
                ||| list[i] == parts@[i]@ && (list[i].len() == 0 || list[i].last() != '\r')
            },
        rest.len() > 0 ==> parts@.last()@ == rest,
{
    law_lines_of_fed(list, rest);
    assert(contents(parts@).len() == parts@.len());
    assert(forall|i: int| 0 <= i < parts@.len() ==> contents(parts@)[i] == (#[trigger] parts@[i])@);
}

/// The characters that [`characters`] lists are those of the text, and [`contains_char`] says
/// whether one of them is the wanted one.
pub proof fn law_characters(s: &str, wanted: char, list: Vec<char>, found: bool)
    requires
        call_ensures(characters, (s,), list),
        call_ensures(contains_char, (s, wanted), found),
    ensures
        list@ == s@,
        found <==> exists|i: int| 0 <= i < s@.len() && s@[i] == wanted,
{
}

/// How a number is read, digit by digit: a digit stands for itself; a digit behind a number makes
/// ten times the number and the digit; one plus sign may stand before the first digit; nothing
/// else is a number; and no number is above the largest one allowed.
pub proof fn law_number_read(s: Seq<char>, c: char, max: nat)
    ensures
        unsigned_up_to(Seq::empty(), max) is None,
        unsigned_up_to(seq![c], max) == (if '0' <= c <= '9' && c as int - 48 <= max {
            Some((c as int - 48) as nat)
        } else {
            None
        }),
        unsigned_up_to(seq!['+', c], max) == unsigned_up_to(seq![c], max),
        s.len() > 0 && s != seq!['+'] ==> unsigned_up_to(s.push(c), max) == (match unsigned_up_to(
            s,
            max,
        ) {
            Some(v) => if '0' <= c <= '9' && 10 * v + (c as int - 48) <= max {
                Some((10 * v + (c as int - 48)) as nat)
            } else {
                None
            },
            None => None,
        }),
{
    let nothing = Seq::<char>::empty();
    assert(digits_value(nothing) == 0);
    let one = seq![c];
    assert(one.drop_last() =~= nothing);
    assert(one.drop_first() =~= nothing);
    assert(one[0] == c);
    assert(seq!['+', c].drop_first() =~= one);
    if s.len() > 0 && s != seq!['+'] {
        let longer = s.push(c);
        let body = unsigned_body(s);
        assert(unsigned_body(longer) =~= body.push(c));
        if body.len() == 0 {
            assert(s =~= seq!['+']);
        }
        assert(body.push(c).drop_last() =~= body);
        assert(body.push(c).last() == c);
        assert(body.push(c)[body.len() as int] == c);
        let fine = forall|i: int| 0 <= i < body.len() ==> is_digit(#[trigger] body[i]);
        let fine_longer = forall|i: int|
            0 <= i < body.push(c).len() ==> is_digit(#[trigger] body.push(c)[i]);
        if fine_longer {
            assert forall|i: int| 0 <= i < body.len() implies is_digit(#[trigger] body[i]) by {
                assert(body.push(c)[i] == body[i]);
            }
        }
        if fine && is_digit(c) {
            assert(fine_longer);
        }
    }
}

/// What [`parse_unsigned`] reads is the number that the text stands for, where it is one and is
/// not above the largest allowed.
pub proof fn law_parse_unsigned(s: &Vec<char>, max: u64, number: Option<u64>)
    requires
        call_ensures(parse_unsigned, (s, max), number),
    ensures
        number is Some <==> unsigned_up_to(s@, max as nat) is Some,
        number is Some ==> unsigned_up_to(s@, max as nat) == Some(number->0 as nat),
{
}

/// Decimal text is digits only, without a zero in front of others, and reading it gives the
/// number back; so it is the one text that does.
pub proof fn law_decimal_text(n: nat, max: nat)
    requires
        n <= max,
    ensures
        unsigned_up_to(decimal(n), max) == Some(n),
        decimal(n).len() > 0,
        forall|i: int| 0 <= i < decimal(n).len() ==> '0' <= (#[trigger] decimal(n)[i]) <= '9',
        decimal(n).len() > 1 ==> decimal(n)[0] != '0',
    decreases n,
{
    lemma_decimal(n);
    lemma_first_digit(n);
}

/// The first digit of a number above zero is not zero.
proof fn lemma_first_digit(n: nat)
    ensures
        decimal(n).len() > 0,
        n > 0 ==> decimal(n)[0] != '0',
        decimal(n).len() > 1 ==> n >= 10,
    decreases n,
{
    if n >= 10 {
        lemma_first_digit(n / 10);
        assert(decimal(n)[0] == decimal(n / 10)[0]);
    }
}

/// [`push_decimal`] leaves what a text held, and writes behind it digits that read as the number,
/// without a zero in front of others.
pub proof fn law_push_decimal(out: &mut String, n: usize)
    requires
        call_ensures(push_decimal, (out, n), ()),
    ensures
        ({
            let (before, after) = (old(out)@, final(out)@);
            let written = after.skip(before.len() as int);
            &&& before.len() < after.len()
            &&& after.take(before.len() as int) == before
            &&& unsigned_up_to(written, usize::MAX as nat) == Some(n as nat)
            &&& '0' <= written[0] <= '9'
            &&& written.len() > 1 ==> written[0] != '0'
        }),
{
    law_decimal_text(n as nat, usize::MAX as nat);
    let (before, after) = (old(out)@, final(out)@);
    assert(after.take(before.len() as int) =~= before);
    assert(after.skip(before.len() as int) =~= decimal(n as nat));
}

} // verus!
