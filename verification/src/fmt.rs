//! Writing numbers and the parts of statements as text.

use vstd::prelude::*;
use vstd::utf8::encode_utf8;
use crate::lexer::ident::ident_byte;
use crate::lexer::ident::ident_start;
use crate::lexer::ident::is_ident_byte;
use crate::lexer::ident::is_ident_start;
use crate::time::Duration;
use crate::value::Uuid;
use vstd::string::StringExecFns;
use crate::ast::Dir;
use crate::ast::Ident;
use crate::ast::Idiom;
use crate::ast::Part;
use crate::ast::PartView;
use crate::strings::push_char;

verus! {

/// The character of a decimal digit.
pub open spec fn digit_char(digit: nat) -> char {
    if digit == 0 {
        '0'
    } else if digit == 1 {
        '1'
    } else if digit == 2 {
        '2'
    } else if digit == 3 {
        '3'
    } else if digit == 4 {
        '4'
    } else if digit == 5 {
        '5'
    } else if digit == 6 {
        '6'
    } else if digit == 7 {
        '7'
    } else if digit == 8 {
        '8'
    } else {
        '9'
    }
}

/// A number in decimal digits, without leading zeros.
pub open spec fn decimal_text(n: nat) -> Seq<char>
    decreases n,
{
    if n < 10 {
        seq![digit_char(n)]
    } else {
        decimal_text(n / 10).push(digit_char(n % 10))
    }
}

/// A whole number in decimal digits, with a minus sign where it is negative.
pub open spec fn signed_text(n: int) -> Seq<char> {
    if n < 0 {
        seq!['-'] + decimal_text((-n) as nat)
    } else {
        decimal_text(n as nat)
    }
}

/// The character of a decimal digit.
fn digit_of(digit: u8) -> (c: char)
    requires
        digit < 10,
    ensures
        c == digit_char(digit as nat),
{
    if digit == 0 {
        '0'
    } else if digit == 1 {
        '1'
    } else if digit == 2 {
        '2'
    } else if digit == 3 {
        '3'
    } else if digit == 4 {
        '4'
    } else if digit == 5 {
        '5'
    } else if digit == 6 {
        '6'
    } else if digit == 7 {
        '7'
    } else if digit == 8 {
        '8'
    } else {
        '9'
    }
}

/// Appends a number in decimal digits.
pub fn push_decimal(n: u64, text: &mut String)
    ensures
        final(text)@ == old(text)@ + decimal_text(n as nat),
    decreases n,
{
    if n >= 10 {
        push_decimal(n / 10, text);
    }
    push_char(text, digit_of((n % 10) as u8));
    proof {
        if n < 10 {
            assert(text@ =~= old(text)@ + decimal_text(n as nat));
        } else {
            assert(text@ =~= old(text)@ + decimal_text(n as nat));
        }
    }
}

/// Appends a whole number in decimal digits.
pub fn push_signed(n: i64, text: &mut String)
    ensures
        final(text)@ == old(text)@ + signed_text(n as int),
{
    if n < 0 {
        push_char(text, '-');
        let magnitude = if n == -0x8000_0000_0000_0000 {
            0x8000_0000_0000_0000u64
        } else {
            (-n) as u64
        };
        push_decimal(magnitude, text);
        assert(text@ =~= old(text)@ + signed_text(n as int));
    } else {
        push_decimal(n as u64, text);
    }
}

/// The arrow for a way along the graph.
pub open spec fn arrow_text(dir: Dir) -> Seq<char> {
    match dir {
        Dir::In => "<-"@,
        Dir::Out => "->"@,
        Dir::Both => "<->"@,
    }
}

/// Whether the bytes of a name can stand as they are: a letter or an underscore, and
/// then letters, digits and underscores.
pub open spec fn is_plain(bytes: Seq<u8>) -> bool {
    bytes.len() > 0 && is_ident_start(bytes[0]) && forall|i: int|
        0 <= i < bytes.len() ==> is_ident_byte(#[trigger] bytes[i])
}

/// A name as it is written: as it is where it can stand so, else between backticks, or
/// between angle brackets where it holds a backtick itself.
pub open spec fn name_text(name: Seq<char>) -> Seq<char> {
    if is_plain(encode_utf8(name)) {
        name
    } else if !encode_utf8(name).contains('`' as u8) {
        seq!['`'] + name + seq!['`']
    } else {
        seq!['⟨'] + name + seq!['⟩']
    }
}

/// A step of a path as it is written behind the steps before it.
pub open spec fn part_text(part: PartView) -> Seq<char> {
    match part {
        PartView::Field(name) => seq!['.'] + name_text(name),
        PartView::Index(index) => seq!['['] + decimal_text(index as nat) + seq![']'],
        PartView::All => "[*]"@,
        PartView::Last => "[$]"@,
        PartView::Graph(dir, table) => arrow_text(dir) + name_text(table),
        PartView::Destructure(names) => ".{"@ + names_text(names) + "}"@,
    }
}

/// Names with a comma and a blank between them.
pub open spec fn names_text(names: Seq<Seq<char>>) -> Seq<char>
    decreases names.len(),
{
    if names.len() == 0 {
        Seq::empty()
    } else if names.len() == 1 {
        name_text(names[0])
    } else {
        names_text(names.drop_last()) + ", "@ + name_text(names.last())
    }
}

/// The steps of a path as they are written, one behind the other.
pub open spec fn parts_text(parts: Seq<PartView>) -> Seq<char>
    decreases parts.len(),
{
    if parts.len() == 0 {
        Seq::empty()
    } else {
        parts_text(parts.drop_last()) + part_text(parts.last())
    }
}

/// A path as it is written: a first name stands without a point before it.
pub open spec fn idiom_text(parts: Seq<PartView>) -> Seq<char> {
    if parts.len() > 0 && parts[0] is Field {
        name_text(parts[0]->Field_0) + parts_text(parts.skip(1))
    } else {
        parts_text(parts)
    }
}

/// Whether a name can stand as it is.
pub fn plain(name: &str) -> (is: bool)
    ensures
        is == is_plain(encode_utf8(name@)),
{
    let bytes = name.as_bytes();
    if bytes.len() == 0 || !ident_start(bytes[0]) {
        return false;
    }
    let mut i: usize = 0;
    while i < bytes.len()
        invariant
            i <= bytes@.len(),
            bytes@ == encode_utf8(name@),
            forall|j: int| 0 <= j < i ==> is_ident_byte(#[trigger] bytes@[j]),
        decreases bytes@.len() - i,
    {
        if !ident_byte(bytes[i]) {
            assert(!is_ident_byte(bytes@[i as int]));
            return false;
        }
        i += 1;
    }
    true
}

/// Whether the bytes hold the byte `byte`.
fn holds_byte(bytes: &[u8], byte: u8) -> (holds: bool)
    ensures
        holds == bytes@.contains(byte),
{
    let mut i: usize = 0;
    while i < bytes.len()
        invariant
            i <= bytes@.len(),
            forall|j: int| 0 <= j < i ==> bytes@[j] != byte,
        decreases bytes@.len() - i,
    {
        if bytes[i] == byte {
            return true;
        }
        i += 1;
    }
    false
}

/// Appends a name as it is written.
pub fn push_name(name: &str, text: &mut String)
    ensures
        final(text)@ == old(text)@ + name_text(name@),
{
    if plain(name) {
        text.append(name);
    } else if !holds_byte(name.as_bytes(), '`' as u8) {
        push_char(text, '`');
        text.append(name);
        push_char(text, '`');
        assert(text@ =~= old(text)@ + name_text(name@));
    } else {
        push_char(text, '⟨');
        text.append(name);
        push_char(text, '⟩');
        assert(text@ =~= old(text)@ + name_text(name@));
    }
}

/// Appends names with a comma and a blank between them.
fn push_names(names: &Vec<Ident>, text: &mut String)
    ensures
        final(text)@ == old(text)@ + names_text(names@.map_values(|name: Ident| name@)),
{
    let ghost all = names@.map_values(|name: Ident| name@);
    let mut i: usize = 0;
    proof {
        assert(all.take(0) =~= Seq::<Seq<char>>::empty());
        assert(text@ + names_text(all.take(0)) =~= text@);
    }
    while i < names.len()
        invariant
            i <= names@.len(),
            all == names@.map_values(|name: Ident| name@),
            text@ == old(text)@ + names_text(all.take(i as int)),
        decreases names@.len() - i,
    {
        let ghost before = text@;
        if i > 0 {
            text.append(", ");
        }
        push_name(names[i].as_str(), text);
        proof {
            let read = all.take(i + 1);
            assert(read.drop_last() =~= all.take(i as int));
            assert(read.last() == names@[i as int]@);
            if i == 0 {
                assert(names_text(read) == name_text(read[0]));
                assert(names_text(all.take(0)) =~= Seq::<char>::empty());
                assert(text@ =~= old(text)@ + names_text(read));
            } else {
                assert(text@ =~= old(text)@ + names_text(read));
            }
        }
        i += 1;
    }
    proof {
        assert(all.take(i as int) =~= all);
    }
}

/// Appends a step of a path.
fn push_part(part: &Part, text: &mut String)
    ensures
        final(text)@ == old(text)@ + part_text(part@),
{
    match part {
        Part::Field(name) => {
            push_char(text, '.');
            push_name(name.as_str(), text);
            assert(text@ =~= old(text)@ + part_text(part@));
        },
        Part::Index(index) => {
            push_char(text, '[');
            push_decimal(*index, text);
            push_char(text, ']');
            assert(text@ =~= old(text)@ + part_text(part@));
        },
        Part::All => {
            text.append("[*]");
        },
        Part::Last => {
            text.append("[$]");
        },
        Part::Graph(dir, table) => {
            match dir {
                Dir::In => text.append("<-"),
                Dir::Out => text.append("->"),
                Dir::Both => text.append("<->"),
            }
            push_name(table.as_str(), text);
            assert(text@ =~= old(text)@ + part_text(part@));
        },
        Part::Destructure(names) => {
            text.append(".{");
            push_names(names, text);
            text.append("}");
            assert(text@ =~= old(text)@ + part_text(part@));
        },
    }
}

impl Idiom {
    /// The path as it is written.
    pub fn to_text(&self) -> (text: String)
        ensures
            text@ == idiom_text(self@),
    {
        let ghost all = self@;
        let mut text = String::new();
        let mut i: usize = 0;
        let count = self.0.len();
        if count > 0 {
            if let Part::Field(name) = &self.0[0] {
                push_name(name.as_str(), &mut text);
                i = 1;
            }
        }
        let ghost first = i;
        proof {
            assert(all.skip(first as int).take(0) =~= Seq::<PartView>::empty());
            assert(text@ + parts_text(all.skip(first as int).take(0)) =~= text@);
        }
        let ghost start = text@;
        while i < count
            invariant
                first <= i <= count,
                count == self.0@.len(),
                all == self@,
                text@ == start + parts_text(all.skip(first as int).take(i - first)),
            decreases count - i,
        {
            let ghost before = text@;
            push_part(&self.0[i], &mut text);
            proof {
                let rest = all.skip(first as int);
                let read = rest.take(i + 1 - first);
                assert(read.drop_last() =~= rest.take(i - first));
                assert(read.last() == self.0@[i as int]@);
                assert(text@ =~= start + parts_text(read));
            }
            i += 1;
        }
        proof {
            let rest = all.skip(first as int);
            assert(rest.take(i - first) =~= rest);
            if first == 0 {
                assert(rest =~= all);
                assert(start =~= Seq::<char>::empty());
                assert(text@ =~= parts_text(all));
            }
        }
        text
    }
}

/// One part of a span of time: nothing where the count is zero, else the count and its
/// unit.
pub open spec fn unit_text(count: nat, unit: Seq<char>) -> Seq<char> {
    if count == 0 {
        Seq::empty()
    } else {
        decimal_text(count) + unit
    }
}

/// A span of time as it is written: years of 365 days, weeks, days, hours, minutes,
/// seconds, milliseconds, microseconds and nanoseconds, each where there are any, and
/// `0ns` where there is none.
pub open spec fn duration_text(secs: u64, nanos: u32) -> Seq<char> {
    if secs == 0 && nanos == 0 {
        "0ns"@
    } else {
        let in_year = (secs % 31536000) as nat;
        let in_week = in_year % 604800;
        let in_day = in_week % 86400;
        unit_text((secs / 31536000) as nat, "y"@) + unit_text(in_year / 604800, "w"@)
            + unit_text(in_week / 86400, "d"@) + unit_text(in_day / 3600, "h"@) + unit_text(
            in_day % 3600 / 60,
            "m"@,
        ) + unit_text(in_day % 60, "s"@) + unit_text((nanos / 1000000) as nat, "ms"@)
            + unit_text((nanos / 1000 % 1000) as nat, "µs"@) + unit_text(
            (nanos % 1000) as nat,
            "ns"@,
        )
    }
}

/// Appends one part of a span of time.
fn push_unit(count: u64, unit: &str, text: &mut String)
    ensures
        final(text)@ == old(text)@ + unit_text(count as nat, unit@),
{
    if count > 0 {
        push_decimal(count, text);
        text.append(unit);
        assert(text@ =~= old(text)@ + unit_text(count as nat, unit@));
    } else {
        assert(text@ =~= old(text)@ + unit_text(count as nat, unit@));
    }
}

/// Appends a span of time as it is written.
pub fn push_duration(duration: &Duration, text: &mut String)
    ensures
        final(text)@ == old(text)@ + duration_text(duration@.0, duration@.1),
{
    let secs = duration.secs();
    let nanos = duration.subsec_nanos();
    if secs == 0 && nanos == 0 {
        text.append("0ns");
        return ;
    }
    let in_year = secs % 31536000;
    let in_week = in_year % 604800;
    let in_day = in_week % 86400;
    let ghost start = text@;
    push_unit(secs / 31536000, "y", text);
    let ghost mut written = unit_text((secs / 31536000) as nat, "y"@);
    push_unit(in_year / 604800, "w", text);
    proof {
        let part = unit_text((in_year / 604800) as nat, "w"@);
        lemma_text_join(start, written, part);
        written = written + part;
    }
    push_unit(in_week / 86400, "d", text);
    proof {
        let part = unit_text((in_week / 86400) as nat, "d"@);
        lemma_text_join(start, written, part);
        written = written + part;
    }
    push_unit(in_day / 3600, "h", text);
    proof {
        let part = unit_text((in_day / 3600) as nat, "h"@);
        lemma_text_join(start, written, part);
        written = written + part;
    }
    push_unit(in_day % 3600 / 60, "m", text);
    proof {
        let part = unit_text((in_day % 3600 / 60) as nat, "m"@);
        lemma_text_join(start, written, part);
        written = written + part;
    }
    push_unit(in_day % 60, "s", text);
    proof {
        let part = unit_text((in_day % 60) as nat, "s"@);
        lemma_text_join(start, written, part);
        written = written + part;
    }
    push_unit((nanos / 1000000) as u64, "ms", text);
    proof {
        let part = unit_text((nanos / 1000000) as nat, "ms"@);
        lemma_text_join(start, written, part);
        written = written + part;
    }
    push_unit((nanos / 1000 % 1000) as u64, "µs", text);
    proof {
        let part = unit_text((nanos / 1000 % 1000) as nat, "µs"@);
        lemma_text_join(start, written, part);
        written = written + part;
    }
    push_unit((nanos % 1000) as u64, "ns", text);
    proof {
        let part = unit_text((nanos % 1000) as nat, "ns"@);
        lemma_text_join(start, written, part);
        written = written + part;
        assert(written == duration_text(secs, nanos));
    }
}

/// Joining three texts gives the same whichever two are joined first.
proof fn lemma_text_join(a: Seq<char>, b: Seq<char>, c: Seq<char>)
    ensures
        (a + b) + c == a + (b + c),
{
    assert((a + b) + c =~= a + (b + c));
}

/// The hexadecimal digit for a number below sixteen, in lower case.
pub open spec fn hex_char(digit: nat) -> char {
    if digit < 10 {
        digit_char(digit)
    } else if digit == 10 {
        'a'
    } else if digit == 11 {
        'b'
    } else if digit == 12 {
        'c'
    } else if digit == 13 {
        'd'
    } else if digit == 14 {
        'e'
    } else {
        'f'
    }
}

/// The first `count` bytes of a uuid as they are written: two hexadecimal digits each,
/// with a dash before the fifth, seventh, ninth and eleventh byte.
pub open spec fn uuid_text_upto(bytes: Seq<u8>, count: nat) -> Seq<char>
    decreases count,
{
    if count == 0 {
        Seq::empty()
    } else {
        let at = (count - 1) as int;
        let before = uuid_text_upto(bytes, (count - 1) as nat);
        let dashed = if at == 4 || at == 6 || at == 8 || at == 10 {
            before.push('-')
        } else {
            before
        };
        dashed.push(hex_char((bytes[at] / 16) as nat)).push(hex_char((bytes[at] % 16) as nat))
    }
}

/// A uuid as it is written: 32 hexadecimal digits in lower case, in groups of eight,
/// four, four, four and twelve with dashes between them.
pub open spec fn uuid_text(bytes: Seq<u8>) -> Seq<char> {
    uuid_text_upto(bytes, 16)
}

fn hex_of(digit: u8) -> (c: char)
    requires
        digit < 16,
    ensures
        c == hex_char(digit as nat),
{
    if digit < 10 {
        digit_of(digit)
    } else if digit == 10 {
        'a'
    } else if digit == 11 {
        'b'
    } else if digit == 12 {
        'c'
    } else if digit == 13 {
        'd'
    } else if digit == 14 {
        'e'
    } else {
        'f'
    }
}

/// A uuid as it is written.
pub fn uuid_to_text(uuid: &Uuid) -> (text: String)
    ensures
        text@ == uuid_text(uuid@),
{
    let bytes = uuid.as_bytes();
    let mut text = String::from_str("");
    let mut i: usize = 0;
    proof {
        reveal_strlit("");
        assert(text@ =~= uuid_text_upto(bytes@, 0));
    }
    while i < 16
        invariant
            i <= 16,
            bytes@.len() == 16,
            text@ == uuid_text_upto(bytes@, i as nat),
        decreases 16 - i,
    {
        if i == 4 || i == 6 || i == 8 || i == 10 {
            push_char(&mut text, '-');
        }
        push_char(&mut text, hex_of(bytes[i] / 16));
        push_char(&mut text, hex_of(bytes[i] % 16));
        i += 1;
    }
    text
}

} // verus!
