//! Reading the kernel's table of TCP connections.
use vstd::prelude::*;

verus! {

/// The character separates words.
pub open spec fn is_space(b: u8) -> bool {
    b == 32 || 9 <= b <= 13
}

/// The words of a line.
pub open spec fn words(s: Seq<u8>) -> Seq<Seq<u8>>
    decreases s.len(),
{
    if s.len() == 0 {
        Seq::empty()
    } else {
        let init = s.drop_last();
        let sofar = words(init);
        if is_space(s.last()) {
            sofar
        } else if init.len() > 0 && !is_space(init.last()) {
            sofar.drop_last().push(sofar.last().push(s.last()))
        } else {
            sofar.push(seq![s.last()])
        }
    }
}

/// The lines of a text. A line break at the very end begins no further line.
pub open spec fn lines(s: Seq<u8>) -> Seq<Seq<u8>>
    decreases s.len(),
{
    if s.len() == 0 {
        Seq::empty()
    } else {
        let init = s.drop_last();
        let sofar = lines(init);
        let fresh = init.len() == 0 || init.last() == 10;
        if s.last() == 10 {
            if fresh {
                sofar.push(Seq::empty())
            } else {
                sofar
            }
        } else if fresh {
            sofar.push(seq![s.last()])
        } else {
            sofar.drop_last().push(sofar.last().push(s.last()))
        }
    }
}

/// What stands behind the last colon; the whole word if there is none.
pub open spec fn behind_colon(s: Seq<u8>) -> Seq<u8>
    decreases s.len(),
{
    if s.len() == 0 || s.last() == 58 {
        Seq::empty()
    } else {
        behind_colon(s.drop_last()).push(s.last())
    }
}

/// An upper-case hexadecimal digit.
pub open spec fn upper_hex(n: int) -> u8 {
    if n < 10 {
        (48 + n) as u8
    } else {
        (55 + n) as u8
    }
}

/// A port in four upper-case hexadecimal digits.
pub open spec fn hex_port(port: u16) -> Seq<u8> {
    seq![
        upper_hex(port as int / 4096),
        upper_hex(port as int / 256 % 16),
        upper_hex(port as int / 16 % 16),
        upper_hex(port as int % 16),
    ]
}

/// The line is of a connection to the port that only waits to be closed on this side: its second
/// word ends in the port, and its fourth is the state for that.
pub open spec fn waits_to_close(line: Seq<u8>, port: u16) -> bool {
    let w = words(line);
    w.len() >= 4 && w[3] == seq![48u8, 56u8] && behind_colon(w[1]) == hex_port(port)
}

/// How many of the lines are of such a connection.
pub open spec fn count_waiting(ls: Seq<Seq<u8>>, port: u16) -> nat
    decreases ls.len(),
{
    if ls.len() == 0 {
        0
    } else {
        count_waiting(ls.drop_last(), port) + if waits_to_close(ls.last(), port) {
            1nat
        } else {
            0nat
        }
    }
}

/// How many such connections a table shows, below its heading.
pub open spec fn table_count(text: Seq<u8>, port: u16) -> nat {
    count_waiting(
        if lines(text).len() > 0 {
            lines(text).skip(1)
        } else {
            lines(text)
        },
        port,
    )
}

spec fn views(v: Seq<Vec<u8>>) -> Seq<Seq<u8>> {
    v.map_values(|w: Vec<u8>| w@)
}

proof fn words_nonempty(s: Seq<u8>)
    requires
        s.len() > 0,
        !is_space(s.last()),
    ensures
        words(s).len() > 0,
    decreases s.len(),
{
    let init = s.drop_last();
    if init.len() > 0 && !is_space(init.last()) {
        words_nonempty(init);
    }
}

proof fn lines_nonempty(s: Seq<u8>)
    requires
        s.len() > 0,
    ensures
        lines(s).len() > 0,
    decreases s.len(),
{
    let init = s.drop_last();
    if init.len() > 0 && init.last() != 10 {
        lines_nonempty(init);
    }
}

fn split_words(s: &[u8]) -> (r: Vec<Vec<u8>>)
    ensures
        views(r@) == words(s@),
{
    let mut out: Vec<Vec<u8>> = Vec::new();
    let mut open: bool = false;
    let mut i: usize = 0;
    assert(s@.take(0) =~= Seq::<u8>::empty());
    assert(views(out@) =~= Seq::<Seq<u8>>::empty());
    while i < s.len()
        invariant
            i <= s@.len(),
            views(out@) == words(s@.take(i as int)),
            open == (i > 0 && !is_space(s@[i - 1])),
        decreases s@.len() - i,
    {
        let c: u8 = s[i];
        let ghost pre = s@.take(i as int);
        let ghost before = views(out@);
        proof {
            assert(s@.take(i + 1).drop_last() =~= pre);
            assert(s@.take(i + 1).last() == c);
            if i > 0 {
                assert(pre.last() == s@[i - 1]);
            }
        }
        let space: bool = c == 32 || (9 <= c && c <= 13);
        if !space {
            if open {
                proof {
                    words_nonempty(pre);
                }
                let n: usize = out.len();
                let ghost last_word = out@[n - 1]@;
                let mut w: Vec<u8> = match out.pop() {
                    Some(w) => w,
                    None => Vec::new(),
                };
                w.push(c);
                out.push(w);
                proof {
                    assert(before.last() == last_word);
                    assert(views(out@) =~= before.drop_last().push(last_word.push(c)));
                }
            } else {
                let mut w: Vec<u8> = Vec::new();
                w.push(c);
                assert(w@ =~= seq![c]);
                out.push(w);
                assert(views(out@) =~= before.push(seq![c]));
            }
        }
        open = !space;
        i += 1;
    }
    assert(s@.take(i as int) =~= s@);
    out
}

fn split_lines(s: &[u8]) -> (r: Vec<Vec<u8>>)
    ensures
        views(r@) == lines(s@),
{
    let mut out: Vec<Vec<u8>> = Vec::new();
    let mut fresh: bool = true;
    let mut i: usize = 0;
    assert(s@.take(0) =~= Seq::<u8>::empty());
    assert(views(out@) =~= Seq::<Seq<u8>>::empty());
    while i < s.len()
        invariant
            i <= s@.len(),
            views(out@) == lines(s@.take(i as int)),
            fresh == (i == 0 || s@[i - 1] == 10),
        decreases s@.len() - i,
    {
        let c: u8 = s[i];
        let ghost pre = s@.take(i as int);
        let ghost before = views(out@);
        proof {
            assert(s@.take(i + 1).drop_last() =~= pre);
            assert(s@.take(i + 1).last() == c);
            if i > 0 {
                assert(pre.last() == s@[i - 1]);
            }
        }
        if c == 10 {
            if fresh {
                let w: Vec<u8> = Vec::new();
                assert(w@ =~= Seq::<u8>::empty());
                out.push(w);
                assert(views(out@) =~= before.push(Seq::<u8>::empty()));
            }
        } else if fresh {
            let mut w: Vec<u8> = Vec::new();
            w.push(c);
            assert(w@ =~= seq![c]);
            out.push(w);
            assert(views(out@) =~= before.push(seq![c]));
        } else {
            proof {
                lines_nonempty(pre);
            }
            let n: usize = out.len();
            let ghost last_line = out@[n - 1]@;
            let mut w: Vec<u8> = match out.pop() {
                Some(w) => w,
                None => Vec::new(),
            };
            w.push(c);
            out.push(w);
            proof {
                assert(before.last() == last_line);
                assert(views(out@) =~= before.drop_last().push(last_line.push(c)));
            }
        }
        fresh = c == 10;
        i += 1;
    }
    assert(s@.take(i as int) =~= s@);
    out
}

proof fn behind_colon_tail(s: Seq<u8>)
    ensures
        behind_colon(s).len() <= s.len(),
        behind_colon(s) == s.skip(s.len() - behind_colon(s).len()),
        behind_colon(s).len() < s.len() ==> s[s.len() - behind_colon(s).len() - 1] == 58,
        forall|i: int| s.len() - behind_colon(s).len() <= i < s.len() ==> s[i] != 58,
    decreases s.len(),
{
    if s.len() == 0 || s.last() == 58 {
        assert(behind_colon(s) =~= s.skip(s.len() as int));
    } else {
        let init = s.drop_last();
        behind_colon_tail(init);
        assert(behind_colon(s) =~= s.skip(s.len() - behind_colon(s).len()));
        assert forall|i: int| s.len() - behind_colon(s).len() <= i < s.len() implies s[i] != 58 by {
            if i < init.len() {
                assert(init[i] == s[i]);
            }
        }
        if behind_colon(s).len() < s.len() {
            assert(init[init.len() - behind_colon(init).len() - 1] == 58);
        }
    }
}

fn upper_hex_exec(n: u16) -> (r: u8)
    requires
        n < 16,
    ensures
        r == upper_hex(n as int),
{
    if n < 10 {
        48 + n as u8
    } else {
        55 + n as u8
    }
}

fn ends_in_port(word: &Vec<u8>, port: u16) -> (r: bool)
    ensures
        r == (behind_colon(word@) == hex_port(port)),
{
    proof {
        behind_colon_tail(word@);
    }
    let n: usize = word.len();
    let ghost tail = behind_colon(word@);
    let ghost want = hex_port(port);
    assert(want.len() == 4);
    if n < 4 {
        return false;
    }
    let d0: u8 = upper_hex_exec(port / 4096);
    let d1: u8 = upper_hex_exec(port / 256 % 16);
    let d2: u8 = upper_hex_exec(port / 16 % 16);
    let d3: u8 = upper_hex_exec(port % 16);
    let same: bool = word[n - 4] == d0 && word[n - 3] == d1 && word[n - 2] == d2 && word[n - 1]
        == d3;
    if !same {
        proof {
            if tail == want {
                assert(tail[0] == word@[n - 4]);
                assert(tail[1] == word@[n - 3]);
                assert(tail[2] == word@[n - 2]);
                assert(tail[3] == word@[n - 1]);
            }
        }
        return false;
    }
    if n > 4 && word[n - 5] != 58 {
        proof {
            if tail == want {
                assert(tail.len() == 4);
                assert(word@[n - 4 - 1] == 58);
            }
        }
        return false;
    }
    proof {
        assert(d0 != 58 && d1 != 58 && d2 != 58 && d3 != 58);
        if tail.len() > 4 {
            assert(n - tail.len() <= n - 5 < n);
            assert(word@[n - 5] != 58);
        }
        if tail.len() < 4 {
            assert(word@[n - tail.len() - 1] == 58);
        }
        assert(tail =~= want);
    }
    true
}

/// Counts the connections to a port in one table that only wait to be closed on this side.
pub fn count_close_wait_connections(table: &[u8], port: u16) -> (r: usize)
    ensures
        r == table_count(table@, port),
{
    let all: Vec<Vec<u8>> = split_lines(table);
    let ghost ls = lines(table@);
    let n: usize = all.len();
    if n == 0 {
        return 0;
    }
    let ghost body = ls.skip(1);
    let mut count: usize = 0;
    let mut i: usize = 1;
    assert(body.take(0) =~= Seq::<Seq<u8>>::empty());
    while i < n
        invariant
            1 <= i <= n,
            n == all@.len(),
            views(all@) == ls,
            body == ls.skip(1),
            count < i,
            count == count_waiting(body.take(i - 1), port),
        decreases n - i,
    {
        proof {
            assert(body.take(i as int).drop_last() =~= body.take(i - 1));
            assert(body.take(i as int).last() == all@[i as int]@);
        }
        let w: Vec<Vec<u8>> = split_words(all[i].as_slice());
        let ghost ws = words(all@[i as int]@);
        if w.len() >= 4 {
            proof {
                assert(ws[3] == w@[3]@);
                assert(ws[1] == w@[1]@);
            }
            let state: &Vec<u8> = &w[3];
            let closing: bool = state.len() == 2 && state[0] == 48 && state[1] == 56;
            proof {
                let code = seq![48u8, 56u8];
                if closing {
                    assert(state@ =~= code);
                } else if state@ == code {
                    assert(state@[0] == 48 && state@[1] == 56);
                }
            }
            if closing && ends_in_port(&w[1], port) {
                count += 1;
            }
        }
        i += 1;
    }
    assert(body.take(i - 1) =~= body);
    count
}

} // verus!
