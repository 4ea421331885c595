//! The text of one cycle: a column of fixed-width numbers, and lines joined
//! by newlines.

use vstd::prelude::*;
use vstd::string::StringExecFns;
use crate::mean::MeanUsage;
use crate::rank::all_defined;

verus! {

/// The width of a usage field: a shorter number is padded on the left.
pub const FIELD_WIDTH: usize = 8;

/// The character of the digit `d`.
pub open spec fn digit_char(d: nat) -> char {
    if d == 0 {
        '0'
    } else if d == 1 {
        '1'
    } else if d == 2 {
        '2'
    } else if d == 3 {
        '3'
    } else if d == 4 {
        '4'
    } else if d == 5 {
        '5'
    } else if d == 6 {
        '6'
    } else if d == 7 {
        '7'
    } else if d == 8 {
        '8'
    } else {
        '9'
    }
}

/// `n` in decimal, without leading zeros.
pub open spec fn decimal(n: nat) -> Seq<char>
    decreases n,
{
    if n < 10 {
        seq![digit_char(n)]
    } else {
        decimal(n / 10).push(digit_char(n % 10))
    }
}

/// A number of hundredths as a decimal number with two places: 1234 is
/// written `12.34`, and 5 is written `0.05`.
pub open spec fn fixed_two(hundredths: nat) -> Seq<char> {
    decimal(hundredths / 100).push('.').push(digit_char(hundredths / 10 % 10)).push(
        digit_char(hundredths % 10),
    )
}

/// `text` behind as many spaces as bring it to `width` characters; longer
/// text stays as it is.
pub open spec fn pad_left(text: Seq<char>, width: nat) -> Seq<char> {
    if text.len() >= width {
        text
    } else {
        Seq::new((width - text.len()) as nat, |i: int| ' ') + text
    }
}

/// The field of a mean: rounded to hundredths, written with two places,
/// right-aligned in `FIELD_WIDTH` characters.
pub open spec fn usage_field(mean: MeanUsage) -> Seq<char> {
    pad_left(fixed_two(mean.rounded() as nat), FIELD_WIDTH as nat)
}

/// The field of every entry, in the order of the entries.
pub open spec fn usage_fields<K>(entries: Seq<(K, MeanUsage)>) -> Seq<Seq<char>> {
    Seq::new(entries.len(), |i: int| usage_field(entries[i].1))
}

/// The lines with a newline between each two; no newline after the last.
pub open spec fn join_lines(lines: Seq<Seq<char>>) -> Seq<char>
    decreases lines.len(),
{
    if lines.len() == 0 {
        Seq::empty()
    } else if lines.len() == 1 {
        lines[0]
    } else {
        join_lines(lines.drop_last()).push('\n') + lines.last()
    }
}

/// Joining one line more: a newline and the line, behind what was joined.
pub proof fn lemma_join_lines_step(lines: Seq<Seq<char>>, i: int)
    requires
        0 <= i < lines.len(),
    ensures
        join_lines(lines.take(i + 1)) == if i == 0 {
            lines[0]
        } else {
            join_lines(lines.take(i)).push('\n') + lines[i]
        },
{
    assert(lines.take(i + 1).drop_last() =~= lines.take(i));
}

/// The text cut at its newlines: one piece more than it has newlines.
pub open spec fn split_lines(text: Seq<char>) -> Seq<Seq<char>>
    decreases text.len(),
{
    if text.len() == 0 {
        seq![Seq::<char>::empty()]
    } else if text.last() == '\n' {
        split_lines(text.drop_last()).push(Seq::<char>::empty())
    } else {
        let before = split_lines(text.drop_last());
        before.drop_last().push(before.last().push(text.last()))
    }
}

/// The lines of a text: none where it is empty, else its pieces between
/// newlines.
pub open spec fn lines_of(text: Seq<char>) -> Seq<Seq<char>> {
    if text.len() == 0 {
        Seq::empty()
    } else {
        split_lines(text)
    }
}

/// The line holds no newline.
pub open spec fn is_one_line(line: Seq<char>) -> bool {
    forall|i: int| #![trigger line[i]] 0 <= i < line.len() ==> line[i] != '\n'
}

/// Every line holds no newline.
pub open spec fn are_lines(lines: Seq<Seq<char>>) -> bool {
    forall|i: int| #![trigger lines[i]] 0 <= i < lines.len() ==> is_one_line(lines[i])
}

/// A text has at least one piece.
pub proof fn lemma_split_lines_len(text: Seq<char>)
    ensures
        split_lines(text).len() >= 1,
    decreases text.len(),
{
    if text.len() > 0 {
        lemma_split_lines_len(text.drop_last());
    }
}

/// Text without a newline, appended, lengthens the last piece.
pub proof fn lemma_split_lines_append(text: Seq<char>, line: Seq<char>)
    requires
        is_one_line(line),
    ensures
        split_lines(text).len() >= 1,
        split_lines(text + line) == split_lines(text).drop_last().push(
            split_lines(text).last() + line,
        ),
    decreases line.len(),
{
    let pieces = split_lines(text);
    lemma_split_lines_len(text);
    if line.len() == 0 {
        assert(text + line =~= text);
        assert(pieces.last() + line =~= pieces.last());
        assert(pieces.drop_last().push(pieces.last()) =~= pieces);
    } else {
        let shorter = line.drop_last();
        assert(is_one_line(shorter)) by {
            assert forall|i: int| #![trigger shorter[i]] 0 <= i < shorter.len() implies shorter[i]
                != '\n' by {
                assert(line[i] != '\n');
            }
        }
        lemma_split_lines_append(text, shorter);
        assert((text + line).drop_last() =~= text + shorter);
        assert((text + line).last() == line[line.len() - 1]);
        let before = split_lines(text + shorter);
        assert(before.drop_last() =~= pieces.drop_last());
        assert(before.last().push(line.last()) =~= pieces.last() + line);
    }
}

/// Cutting joined lines at the newlines gives the lines back.
pub proof fn lemma_split_joined_lines(lines: Seq<Seq<char>>)
    requires
        lines.len() >= 1,
        are_lines(lines),
    ensures
        split_lines(join_lines(lines)) == lines,
    decreases lines.len(),
{
    let none = Seq::<char>::empty();
    if lines.len() == 1 {
        assert(is_one_line(lines[0]));
        lemma_split_lines_append(none, lines[0]);
        assert(none + lines[0] =~= lines[0]);
        assert(split_lines(none) =~= seq![none]);
        assert(split_lines(none).drop_last().push(none + lines[0]) =~= lines);
    } else {
        let earlier = lines.drop_last();
        assert(are_lines(earlier)) by {
            assert forall|i: int| #![trigger earlier[i]] 0 <= i < earlier.len() implies is_one_line(
                earlier[i],
            ) by {
                assert(is_one_line(lines[i]));
            }
        }
        lemma_split_joined_lines(earlier);
        let text = join_lines(earlier).push('\n');
        assert(text.drop_last() =~= join_lines(earlier));
        assert(split_lines(text) == earlier.push(none));
        assert(is_one_line(lines.last()));
        lemma_split_lines_append(text, lines.last());
        assert(earlier.push(none).drop_last() =~= earlier);
        assert(none + lines.last() =~= lines.last());
        assert(earlier.push(lines.last()) =~= lines);
    }
}

/// Joined lines are at least as long as the first of them.
pub proof fn lemma_join_lines_len(lines: Seq<Seq<char>>)
    requires
        lines.len() >= 1,
    ensures
        join_lines(lines).len() >= lines[0].len(),
    decreases lines.len(),
{
    if lines.len() > 1 {
        lemma_join_lines_len(lines.drop_last());
    }
}

/// A number in decimal holds digits only.
pub proof fn lemma_decimal_is_one_line(n: nat)
    ensures
        is_one_line(decimal(n)),
        decimal(n).len() >= 1,
    decreases n,
{
    if n >= 10 {
        lemma_decimal_is_one_line(n / 10);
    }
}

/// A usage field is one line of at least four characters.
pub proof fn lemma_usage_field_is_one_line(mean: MeanUsage)
    ensures
        is_one_line(usage_field(mean)),
        usage_field(mean).len() >= 4,
{
    let hundredths = mean.rounded() as nat;
    lemma_decimal_is_one_line(hundredths / 100);
}

/// The digit `d` as text.
fn digit(d: u8) -> (text: &'static str)
    requires
        d < 10,
    ensures
        text@ == seq![digit_char(d as nat)],
{
    proof {
        reveal_strlit("0");
        reveal_strlit("1");
        reveal_strlit("2");
        reveal_strlit("3");
        reveal_strlit("4");
        reveal_strlit("5");
        reveal_strlit("6");
        reveal_strlit("7");
        reveal_strlit("8");
        reveal_strlit("9");
    }
    let text: &'static str = match d {
        0 => "0",
        1 => "1",
        2 => "2",
        3 => "3",
        4 => "4",
        5 => "5",
        6 => "6",
        7 => "7",
        8 => "8",
        _ => "9",
    };
    proof {
        assert(text@ =~= seq![digit_char(d as nat)]);
    }
    text
}

/// Appends a newline.
pub fn push_newline(out: &mut String)
    ensures
        final(out)@ == old(out)@.push('\n'),
{
    proof {
        reveal_strlit("\n");
    }
    out.append("\n");
    proof {
        assert(final(out)@ =~= old(out)@.push('\n'));
    }
}

/// The number of digits of `n`.
fn decimal_width(n: u128) -> (width: usize)
    ensures
        width == decimal(n as nat).len(),
        1 <= width <= 39,
    decreases n,
{
    if n < 10 {
        1
    } else {
        let shorter: usize = decimal_width(n / 10);
        proof {
            lemma_decimal_width(n as nat);
        }
        shorter + 1
    }
}

/// A number below `10^k` has at most `k` digits; 128 bits hold 39.
proof fn lemma_decimal_width(n: nat)
    requires
        n <= u128::MAX,
    ensures
        decimal(n).len() <= 39,
{
    reveal_with_fuel(decimal, 40);
}

/// Appends `n` in decimal.
fn push_decimal(out: &mut String, n: u128)
    ensures
        final(out)@ == old(out)@ + decimal(n as nat),
    decreases n,
{
    if n >= 10 {
        push_decimal(out, n / 10);
    }
    out.append(digit((n % 10) as u8));
    proof {
        assert(final(out)@ =~= old(out)@ + decimal(n as nat));
    }
}

/// The field of `mean`: two decimal places, right-aligned in eight
/// characters.
pub fn format_usage(mean: &MeanUsage) -> (field: String)
    requires
        mean.is_defined(),
    ensures
        field@ == usage_field(*mean),
{
    let hundredths: u128 = mean.round();
    let width: usize = decimal_width(hundredths / 100) + 3;
    let mut field: String = String::new();
    let mut spaces: usize = 0;
    while spaces + width < FIELD_WIDTH
        invariant
            spaces + width <= FIELD_WIDTH || spaces == 0,
            field@ =~= Seq::new(spaces as nat, |i: int| ' '),
            width <= 42,
        decreases FIELD_WIDTH - spaces,
    {
        proof {
            reveal_strlit(" ");
        }
        field.append(" ");
        spaces += 1;
    }
    let ghost padding = field@;
    push_decimal(&mut field, hundredths / 100);
    proof {
        reveal_strlit(".");
    }
    field.append(".");
    field.append(digit((hundredths / 10 % 10) as u8));
    field.append(digit((hundredths % 10) as u8));
    proof {
        let body = fixed_two(hundredths as nat);
        assert(body.len() == width);
        assert(field@ =~= padding + body);
        if body.len() >= FIELD_WIDTH {
            assert(padding =~= Seq::<char>::empty());
            assert(field@ =~= body);
        }
    }
    field
}

/// The fields of the entries, one to a line, in the order of the entries.
pub fn get_usage_string(usage_vec: &[(u32, MeanUsage)]) -> (usage_string: String)
    requires
        all_defined(usage_vec@),
    ensures
        usage_string@ == join_lines(usage_fields(usage_vec@)),
{
    let ghost fields = usage_fields(usage_vec@);
    let mut usage_string: String = String::new();
    let mut i: usize = 0;
    while i < usage_vec.len()
        invariant
            i <= usage_vec@.len(),
            all_defined(usage_vec@),
            fields == usage_fields(usage_vec@),
            usage_string@ == join_lines(fields.take(i as int)),
        decreases usage_vec@.len() - i,
    {
        proof {
            lemma_join_lines_step(fields, i as int);
        }
        if i > 0 {
            push_newline(&mut usage_string);
        }
        let field: String = format_usage(&usage_vec[i].1);
        usage_string.append(field.as_str());
        proof {
            assert(fields[i as int] == field@);
            if i == 0 {
                assert(usage_string@ =~= field@);
            }
        }
        i += 1;
    }
    proof {
        assert(fields.take(usage_vec@.len() as int) =~= fields);
    }
    usage_string
}

} // verus!
