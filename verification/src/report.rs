use vstd::prelude::*;
use vstd::string::StringExecFns;

verus! {

/// The ten decimal digits, in order.
pub open spec fn digit_chars() -> Seq<char> {
    seq!['0', '1', '2', '3', '4', '5', '6', '7', '8', '9']
}

/// The decimal notation of `n`, most significant digit first, without
/// leading zeros (zero is written `0`).
pub open spec fn decimal(n: nat) -> Seq<char>
    decreases n,
{
    if n < 10 {
        seq![digit_chars()[n as int]]
    } else {
        decimal(n / 10).push(digit_chars()[(n % 10) as int])
    }
}

/// The lines of `lines` joined, each followed by a newline.
pub open spec fn lines_text(lines: Seq<Seq<char>>) -> Seq<char>
    decreases lines.len(),
{
    if lines.len() == 0 {
        Seq::empty()
    } else {
        lines_text(lines.drop_last()) + lines.last() + seq!['\n']
    }
}

fn digit_str(d: u64) -> (r: &'static str)
    requires
        d < 10,
    ensures
        r@ == seq![digit_chars()[d as int]],
{
    if d == 0 {
        proof {
            reveal_strlit("0");
        }
        "0"
    } else if d == 1 {
        proof {
            reveal_strlit("1");
        }
        "1"
    } else if d == 2 {
        proof {
            reveal_strlit("2");
        }
        "2"
    } else if d == 3 {
        proof {
            reveal_strlit("3");
        }
        "3"
    } else if d == 4 {
        proof {
            reveal_strlit("4");
        }
        "4"
    } else if d == 5 {
        proof {
            reveal_strlit("5");
        }
        "5"
    } else if d == 6 {
        proof {
            reveal_strlit("6");
        }
        "6"
    } else if d == 7 {
        proof {
            reveal_strlit("7");
        }
        "7"
    } else if d == 8 {
        proof {
            reveal_strlit("8");
        }
        "8"
    } else {
        proof {
            reveal_strlit("9");
        }
        "9"
    }
}

/// The decimal notation of `n`.
pub fn decimal_string(n: u64) -> (r: String)
    ensures
        r@ == decimal(n as nat),
    decreases n,
{
    if n < 10 {
        let mut s = String::new();
        s.append(digit_str(n));
        assert(s@ =~= decimal(n as nat));
        s
    } else {
        let mut s = decimal_string(n / 10);
        s.append(digit_str(n % 10));
        assert(s@ =~= decimal(n as nat));
        s
    }
}

/// The text that records monitored states: each state on a line of its own.
pub fn render_states(states: &Vec<String>) -> (r: String)
    ensures
        r@ == lines_text(states@.map_values(|s: String| s@)),
{
    let ghost lines = states@.map_values(|s: String| s@);
    let mut out = String::new();
    proof {
        reveal_strlit("\n");
        assert(lines.take(0) =~= Seq::<Seq<char>>::empty());
    }
    let mut i: usize = 0;
    while i < states.len()
        invariant
            i <= states@.len(),
            lines == states@.map_values(|s: String| s@),
            out@ == lines_text(lines.take(i as int)),
            "\n"@ == seq!['\n'],
        decreases states@.len() - i,
    {
        out.append(states[i].as_str());
        out.append("\n");
        assert(lines.take(i + 1).drop_last() =~= lines.take(i as int));
        assert(lines.take(i + 1).last() == states@[i as int]@);
        i = i + 1;
    }
    assert(lines.take(states@.len() as int) =~= lines);
    out
}


/// The value of a decimal digit character.
pub open spec fn digit_value(c: char) -> int {
    (c as int) - ('0' as int)
}

/// The number that a string of decimal digits denotes.
pub open spec fn digits_value(s: Seq<char>) -> int
    decreases s.len(),
{
    if s.len() == 0 {
        0
    } else {
        digits_value(s.drop_last()) * 10 + digit_value(s.last())
    }
}

proof fn lemma_digit_chars(d: int)
    requires
        0 <= d < 10,
    ensures
        digit_value(digit_chars()[d]) == d,
{
    assert(digit_chars()[0] == '0');
    assert(digit_chars()[1] == '1');
    assert(digit_chars()[2] == '2');
    assert(digit_chars()[3] == '3');
    assert(digit_chars()[4] == '4');
    assert(digit_chars()[5] == '5');
    assert(digit_chars()[6] == '6');
    assert(digit_chars()[7] == '7');
    assert(digit_chars()[8] == '8');
    assert(digit_chars()[9] == '9');
}

/// The decimal notation of `n` denotes `n`, consists of digits only, and
/// starts with a zero only when it is `0` itself.
pub proof fn decimal_denotes_its_number(n: nat)
    ensures
        digits_value(decimal(n)) == n,
        decimal(n).len() >= 1,
        forall|i: int| 0 <= i < decimal(n).len() ==> digit_chars().contains(#[trigger] decimal(n)[i]),
        decimal(n)[0] == '0' ==> n == 0,
    decreases n,
{
    if n < 10 {
        lemma_digit_chars(n as int);
        assert(decimal(n).drop_last() =~= Seq::<char>::empty());
        assert(digits_value(Seq::<char>::empty()) == 0);
        assert(digit_chars()[n as int] == decimal(n)[0]);
        assert(digits_value(decimal(n)) == digits_value(decimal(n).drop_last()) * 10 + digit_value(decimal(n).last()));
        if decimal(n)[0] == '0' {
            assert(digit_value(decimal(n)[0]) == 0);
        }
    } else {
        decimal_denotes_its_number(n / 10);
        lemma_digit_chars((n % 10) as int);
        let d = decimal(n);
        assert(d.drop_last() =~= decimal(n / 10));
        assert(d.last() == digit_chars()[(n % 10) as int]);
        assert(digits_value(d) == digits_value(decimal(n / 10)) * 10 + (n % 10) as int);
        assert(n == (n / 10) * 10 + n % 10);
        assert forall|i: int| 0 <= i < d.len() implies digit_chars().contains(#[trigger] d[i]) by {
            if i < d.len() - 1 {
                assert(d[i] == decimal(n / 10)[i]);
            } else {
                assert(d[i] == digit_chars()[(n % 10) as int]);
            }
        }
        assert(d[0] == decimal(n / 10)[0]);
    }
}

/// Each rendered state takes one line: the text holds one newline per state.
pub proof fn rendered_text_length(lines: Seq<Seq<char>>)
    ensures
        lines_text(lines).len() == lines.len() + lines_total_len(lines),
    decreases lines.len(),
{
    if lines.len() > 0 {
        rendered_text_length(lines.drop_last());
    }
}

/// The summed length of the lines.
pub open spec fn lines_total_len(lines: Seq<Seq<char>>) -> nat
    decreases lines.len(),
{
    if lines.len() == 0 {
        0
    } else {
        lines_total_len(lines.drop_last()) + lines.last().len()
    }
}

/// Every state is followed by a newline, however many come before it: adding
/// a state to the end adds that state and one newline to the text.
pub proof fn each_state_ends_its_line(lines: Seq<Seq<char>>, s: Seq<char>)
    ensures
        lines_text(lines.push(s)) == lines_text(lines) + s + seq!['\n'],
{
    assert(lines.push(s).drop_last() =~= lines);
}

/// The text of two runs of states is the text of the first followed by the
/// text of the second: each state's line is the same wherever it stands.
pub proof fn state_lines_concatenate(a: Seq<Seq<char>>, b: Seq<Seq<char>>)
    ensures
        lines_text(a + b) == lines_text(a) + lines_text(b),
    decreases b.len(),
{
    if b.len() == 0 {
        assert(a + b =~= a);
        assert(lines_text(a) + lines_text(b) =~= lines_text(a));
    } else {
        state_lines_concatenate(a, b.drop_last());
        assert((a + b).drop_last() =~= a + b.drop_last());
        assert((a + b).last() == b.last());
        assert(lines_text(a + b) =~= lines_text(a) + lines_text(b));
    }
}

/// One state is written as that state and a newline.
pub proof fn single_state_line(s: Seq<char>)
    ensures
        lines_text(seq![s]) == s + seq!['\n'],
{
    assert(seq![s].drop_last() =~= Seq::<Seq<char>>::empty());
    assert(seq![s].last() == s);
    assert(lines_text(Seq::<Seq<char>>::empty()) =~= Seq::<char>::empty());
    assert(lines_text(seq![s]) =~= s + seq!['\n']);
}

} // verus!
