//! What the texts mean that a node reads: file names, settings, and the kernel's tables of
//! connections.
use vstd::prelude::*;

use crate::names::{
    all_digits, array32, cache_mb, chunks_for, digits_value, hex_pair, hex_value, is_temp_name,
    linger_of, named_chunk, nibble, number_in, says_yes, unsigned_part,
};
use crate::proc_net::{
    behind_colon, count_waiting, hex_port, is_space, lines, table_count, waits_to_close, words,
};
use crate::text::{decimal, digit};
use crate::types::ChunkId;

verus! {

// ---------------------------------------------------------------------------
// Names and settings.
// ---------------------------------------------------------------------------

/// Hexadecimal digits in order have values in order, whichever their case, and nothing else is a
/// digit.
pub proof fn hexadecimal_digits_count_up(b: u8)
    ensures
        nibble(b) is Some <==> 48 <= b <= 57 || 65 <= b <= 70 || 97 <= b <= 102,
        48 <= b <= 57 ==> nibble(b)->0 + 48 == b,
        65 <= b <= 70 ==> nibble(b)->0 + 65 == b + 10,
        97 <= b <= 102 ==> nibble(b) == nibble((b - 32) as u8),
{
}

/// Two hexadecimal digits are a number with the first counting sixteenfold; a plus sign counts as
/// nothing.
pub proof fn two_digits_make_a_byte(a: u8, b: u8)
    ensures
        nibble(a) is Some && nibble(b) is Some ==> hex_pair(a, b) is Some && hex_pair(a, b)->0
            == 16 * nibble(a)->0 + nibble(b)->0,
        a == 43 ==> hex_pair(a, b) == nibble(b),
        a != 43 && nibble(a) is None ==> hex_pair(a, b) is None,
        nibble(b) is None ==> hex_pair(a, b) is None,
{
}

/// A file is still being written just if its name is something and then `.tmp`.
pub proof fn temporary_names_end_in_tmp(stem: Seq<u8>, name: Seq<u8>)
    ensures
        is_temp_name(stem + seq![46u8, 116u8, 109u8, 112u8]) <==> stem.len() > 0,
        is_temp_name(name) ==> name.len() > 4 && name == name.take(name.len() - 4) + seq![
            46u8,
            116u8,
            109u8,
            112u8,
        ],
{
    let tail = seq![46u8, 116u8, 109u8, 112u8];
    let whole = stem + tail;
    assert(whole.subrange(whole.len() - 4, whole.len() as int) =~= tail);
    if is_temp_name(name) {
        let s = name.take(name.len() - 4);
        assert(name =~= s + name.subrange(name.len() - 4, name.len() as int));
        assert(name == s + tail);
    }
}

/// The bytes of a text of plain characters.
pub open spec fn ascii(s: Seq<char>) -> Seq<u8> {
    s.map_values(|c: char| c as u8)
}

proof fn decimal_digits_have_its_value(n: nat)
    ensures
        decimal(n).len() > 0,
        all_digits(ascii(decimal(n))),
        digits_value(ascii(decimal(n))) == n,
    decreases n,
{
    let s = ascii(decimal(n));
    if n < 10 {
        assert(s =~= seq![digit(n) as u8]);
        assert(s.drop_last() =~= Seq::<u8>::empty());
        assert(digits_value(s.drop_last()) == 0);
    } else {
        decimal_digits_have_its_value(n / 10);
        let s0 = ascii(decimal(n / 10));
        assert(s =~= s0.push(digit(n % 10) as u8));
        assert(s.drop_last() =~= s0);
        assert forall|i: int| 0 <= i < s.len() implies 48 <= #[trigger] s[i] <= 57 by {
            if i < s0.len() {
                assert(s[i] == s0[i]);
            }
        }
    }
}

/// A number that is written in decimal is read as that number, with a plus sign before it or
/// without, if it fits; and a text with anything else in it is no number.
pub proof fn a_written_number_is_read_back(n: nat, s: Seq<u8>, i: int)
    ensures
        n <= u64::MAX ==> number_in(ascii(decimal(n))) == Some(n as u64),
        n <= u64::MAX ==> number_in(seq![43u8] + ascii(decimal(n))) == Some(n as u64),
        n > u64::MAX ==> number_in(ascii(decimal(n))) is None,
        0 <= i < s.len() && !(48 <= s[i] <= 57) && !(i == 0 && s[0] == 43) ==> number_in(
            s,
        ) is None,
        number_in(Seq::empty()) is None,
        number_in(seq![43u8]) is None,
{
    decimal_digits_have_its_value(n);
    let d = ascii(decimal(n));
    assert(d[0] != 43);
    assert(unsigned_part(d) == d);
    let p = seq![43u8] + d;
    assert(p.drop_first() =~= d);
    assert(unsigned_part(p) == d);
    let u = unsigned_part(s);
    if 0 <= i < s.len() && !(48 <= s[i] <= 57) && !(i == 0 && s[0] == 43) {
        if s[0] == 43 {
            assert(u[i - 1] == s[i]);
        } else {
            assert(u[i] == s[i]);
        }
    }
    assert(seq![43u8].drop_first() =~= Seq::<u8>::empty());
}

/// A setting says yes just if it is `1`, or `true` in whichever case.
pub proof fn yes_is_one_or_true(s: Seq<u8>)
    ensures
        says_yes(s) <==> s == seq![49u8] || (s.len() == 4 && (s[0] == 116 || s[0] == 84) && (s[1]
            == 114 || s[1] == 82) && (s[2] == 117 || s[2] == 85) && (s[3] == 101 || s[3] == 69)),
{
}

/// The cache gets what is set, and half of the budget where nothing is.
pub proof fn half_of_the_budget_is_for_the_cache(set: u64, budget_mb: u64)
    ensures
        cache_mb(Some(set), budget_mb) == set,
        2 * cache_mb(None, budget_mb) <= budget_mb <= 2 * cache_mb(None, budget_mb) + 1,
{
}

// ---------------------------------------------------------------------------
// Tables of connections.
// ---------------------------------------------------------------------------

proof fn a_last_letter_is_in_a_word(s: Seq<u8>)
    requires
        s.len() > 0,
        !is_space(s.last()),
    ensures
        words(s).len() > 0,
{
}

/// Words are parted by spaces, tabs and line breaks: the words of two texts with such a character
/// between them are those of the one and then those of the other.
pub proof fn spaces_part_words(a: Seq<u8>, space: u8, b: Seq<u8>)
    requires
        space == 32 || 9 <= space <= 13,
    ensures
        words(a.push(space) + b) == words(a) + words(b),
    decreases b.len(),
{
    let s = a.push(space) + b;
    if b.len() == 0 {
        assert(s =~= a.push(space));
        assert(s.drop_last() =~= a);
        assert(words(a) + words(b) =~= words(a));
    } else {
        let b0 = b.drop_last();
        let c = b.last();
        spaces_part_words(a, space, b0);
        assert(s.drop_last() =~= a.push(space) + b0);
        assert(s.last() == c);
        let init = a.push(space) + b0;
        if b0.len() > 0 {
            assert(init.last() == b0.last());
        } else {
            assert(init.last() == space);
        }
        if !is_space(c) {
            if b0.len() > 0 && !is_space(b0.last()) {
                a_last_letter_is_in_a_word(b0);
                let sofar = words(a) + words(b0);
                assert(sofar.drop_last().push(sofar.last().push(c)) =~= words(a) + words(
                    b0,
                ).drop_last().push(words(b0).last().push(c)));
            } else {
                assert((words(a) + words(b0)).push(seq![c]) =~= words(a) + words(b0).push(
                    seq![c],
                ));
            }
        }
    }
}

/// Characters with nothing between them that parts words are one word.
pub proof fn letters_make_one_word(w: Seq<u8>)
    requires
        w.len() > 0,
        forall|i: int| 0 <= i < w.len() ==> (#[trigger] w[i]) != 32 && !(9 <= w[i] <= 13),
    ensures
        words(w) == seq![w],
    decreases w.len(),
{
    let init = w.drop_last();
    assert(w[w.len() - 1] == w.last());
    if init.len() > 0 {
        assert forall|i: int| 0 <= i < init.len() implies (#[trigger] init[i]) != 32 && !(9
            <= init[i] <= 13) by {
            assert(w[i] != 32);
        }
        assert(init[init.len() - 1] == init.last());
        letters_make_one_word(init);
        assert(init.push(w.last()) =~= w);
        assert(words(w) =~= seq![w]);
    } else {
        assert(seq![w.last()] =~= w);
        assert(words(init) =~= Seq::<Seq<u8>>::empty());
        assert(words(w) =~= seq![w]);
    }
}

proof fn an_open_line_is_there(s: Seq<u8>)
    requires
        s.len() > 0,
    ensures
        lines(s).len() > 0,
    decreases s.len(),
{
    if s.drop_last().len() > 0 {
        an_open_line_is_there(s.drop_last());
    }
}

/// Text without a line break is one line.
pub proof fn text_without_a_break_is_one_line(a: Seq<u8>)
    requires
        a.len() > 0,
        forall|i: int| 0 <= i < a.len() ==> #[trigger] a[i] != 10,
    ensures
        lines(a) == seq![a],
    decreases a.len(),
{
    let init = a.drop_last();
    assert(a[a.len() - 1] == a.last());
    if init.len() > 0 {
        assert forall|i: int| 0 <= i < init.len() implies #[trigger] init[i] != 10 by {
            assert(a[i] != 10);
        }
        assert(init[init.len() - 1] == init.last());
        text_without_a_break_is_one_line(init);
        assert(init.push(a.last()) =~= a);
        assert(lines(a) =~= seq![a]);
    } else {
        assert(seq![a.last()] =~= a);
        assert(lines(init) =~= Seq::<Seq<u8>>::empty());
        assert(lines(a) =~= seq![a]);
    }
}

/// A line break ends a line: what stands before the first one is the first line, and what stands
/// behind it makes up the others.
pub proof fn breaks_end_lines(a: Seq<u8>, b: Seq<u8>)
    requires
        forall|i: int| 0 <= i < a.len() ==> #[trigger] a[i] != 10,
    ensures
        lines(a.push(10) + b) == seq![a] + lines(b),
    decreases b.len(),
{
    let s = a.push(10) + b;
    if b.len() == 0 {
        assert(s =~= a.push(10));
        assert(s.drop_last() =~= a);
        if a.len() > 0 {
            assert(a[a.len() - 1] == a.last());
            text_without_a_break_is_one_line(a);
        } else {
            assert(a =~= Seq::<u8>::empty());
            assert(lines(a) =~= Seq::<Seq<u8>>::empty());
        }
        assert(lines(s) =~= seq![a] + lines(b));
    } else {
        let b0 = b.drop_last();
        let c = b.last();
        breaks_end_lines(a, b0);
        assert(s.drop_last() =~= a.push(10) + b0);
        assert(s.last() == c);
        let init = a.push(10) + b0;
        if b0.len() > 0 {
            assert(init.last() == b0.last());
            an_open_line_is_there(b0);
        } else {
            assert(init.last() == 10);
        }
        assert(lines(s) =~= seq![a] + lines(b));
    }
}

/// What stands behind the last colon of a word.
pub proof fn the_port_stands_behind_the_last_colon(a: Seq<u8>, b: Seq<u8>)
    requires
        forall|i: int| 0 <= i < b.len() ==> #[trigger] b[i] != 58,
    ensures
        behind_colon(a.push(58) + b) == b,
        behind_colon(b) == b,
    decreases b.len(),
{
    let s = a.push(58) + b;
    if b.len() == 0 {
        assert(s =~= a.push(58));
        assert(behind_colon(s) =~= b);
        assert(behind_colon(b) =~= b);
    } else {
        let b0 = b.drop_last();
        assert(b[b.len() - 1] == b.last());
        assert forall|i: int| 0 <= i < b0.len() implies #[trigger] b0[i] != 58 by {
            assert(b[i] != 58);
        }
        the_port_stands_behind_the_last_colon(a, b0);
        assert(s.drop_last() =~= a.push(58) + b0);
        assert(s.last() == b.last());
        assert(b0.push(b.last()) =~= b);
    }
}

/// A port is written in four hexadecimal digits, of which none is in lower case: read as a number
/// they are the port.
pub proof fn a_port_is_written_in_hexadecimal(port: u16)
    ensures
        hex_port(port).len() == 4,
        forall|i: int|
            0 <= i < 4 ==> nibble(#[trigger] hex_port(port)[i]) is Some && hex_port(port)[i] <= 70,
        4096 * nibble(hex_port(port)[0])->0 + 256 * nibble(hex_port(port)[1])->0 + 16 * nibble(
            hex_port(port)[2],
        )->0 + nibble(hex_port(port)[3])->0 == port,
{
    let p = port as int;
    assert(nibble(hex_port(port)[0])->0 == p / 4096);
    assert(nibble(hex_port(port)[1])->0 == p / 256 % 16);
    assert(nibble(hex_port(port)[2])->0 == p / 16 % 16);
    assert(nibble(hex_port(port)[3])->0 == p % 16);
    assert(p == 16 * (p / 16) + p % 16);
    assert(p / 16 == 16 * (p / 256) + p / 16 % 16);
    assert(p / 256 == 16 * (p / 4096) + p / 256 % 16);
}

/// A line of the table counts just if its second word ends in the port behind a colon and its
/// fourth is the state of a connection that waits to be closed here.
pub proof fn a_line_counts_by_its_port_and_state(line: Seq<u8>, port: u16)
    ensures
        waits_to_close(line, port) <==> words(line).len() >= 4 && words(line)[3] == seq![
            48u8,
            56u8,
        ] && behind_colon(words(line)[1]) == hex_port(port),
{
}

proof fn waiting_lines_are_counted(ls: Seq<Seq<u8>>, port: u16)
    ensures
        count_waiting(ls, port) == ls.filter(|l: Seq<u8>| waits_to_close(l, port)).len(),
    decreases ls.len(),
{
    reveal(Seq::filter);
    if ls.len() > 0 {
        waiting_lines_are_counted(ls.drop_last(), port);
    }
}

/// Just the lines below the heading count, and of those just the ones that wait to be closed.
pub proof fn the_heading_is_not_counted(heading: Seq<u8>, rest: Seq<u8>, port: u16)
    requires
        forall|i: int| 0 <= i < heading.len() ==> #[trigger] heading[i] != 10,
    ensures
        table_count(heading.push(10) + rest, port) == lines(rest).filter(
            |l: Seq<u8>| waits_to_close(l, port),
        ).len(),
        table_count(Seq::empty(), port) == 0,
{
    breaks_end_lines(heading, rest);
    let all = lines(heading.push(10) + rest);
    assert(all.skip(1) =~= lines(rest));
    waiting_lines_are_counted(lines(rest), port);
}

/// A batch lingers as long as the setting says in digits, and a second where it says nothing of
/// the kind.
pub proof fn a_batch_lingers_for_a_second_by_default(n: nat, text: Seq<u8>)
    ensures
        linger_of(None) == 1000,
        n <= u64::MAX ==> linger_of(Some(ascii(decimal(n)))) == n,
        number_in(text) is None ==> linger_of(Some(text)) == 1000,
{
    a_written_number_is_read_back(n, text, 0);
}

/// The cache is made for as many chunks of four megabytes as fit, and for one at least.
pub proof fn a_cache_holds_a_chunk_at_least(mb: u64)
    requires
        mb <= usize::MAX,
    ensures
        chunks_for(mb) >= 1,
        mb >= 4 ==> 4 * chunks_for(mb) <= mb < 4 * chunks_for(mb) + 4,
        mb < 4 ==> chunks_for(mb) == 1,
{
}

/// Just a name of sixty-four characters stands for a chunk, of which every two are a number in
/// base sixteen: that byte of the chunk's hash.
pub proof fn just_sixty_four_digits_name_a_chunk(name: Seq<u8>, c: ChunkId)
    ensures
        named_chunk(name) is Some <==> name.len() == 64 && forall|i: int|
            #![trigger name[2 * i]]
            0 <= i < 32 ==> hex_pair(name[2 * i], name[2 * i + 1]) is Some,
        name.len() == 64 && (forall|i: int|
            #![trigger name[2 * i]]
            0 <= i < 32 ==> hex_pair(name[2 * i], name[2 * i + 1]) == Some(c.hash@[i]))
            ==> named_chunk(name) == Some(c),
{
    if name.len() == 64 && (forall|i: int|
        #![trigger name[2 * i]]
        0 <= i < 32 ==> hex_pair(name[2 * i], name[2 * i + 1]) == Some(c.hash@[i])) {
        assert(hex_value(name) =~= c.hash@) by {
            assert forall|i: int| 0 <= i < 32 implies hex_value(name)[i] == c.hash@[i] by {
                assert(hex_pair(name[2 * i], name[2 * i + 1]) == Some(c.hash@[i]));
            }
        }
        assert(array32(c.hash@)@ == c.hash@);
        assert(array32(c.hash@) =~= c.hash);
    }
}

} // verus!
