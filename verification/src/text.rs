//! Text helpers shared by the harness: Unicode white-space trimming and
//! decimal rendering of unsigned integers.
use vstd::prelude::*;
use vstd::string::StrSliceExecFns;

verus! {

/// The Unicode `White_Space` property, which is what `char::is_whitespace`
/// tests.
pub open spec fn is_white_space(c: char) -> bool {
    let v = c as u32;
    ||| 0x09 <= v <= 0x0d
    ||| v == 0x20
    ||| v == 0x85
    ||| v == 0xa0
    ||| v == 0x1680
    ||| 0x2000 <= v <= 0x200a
    ||| v == 0x2028
    ||| v == 0x2029
    ||| v == 0x202f
    ||| v == 0x205f
    ||| v == 0x3000
}

/// `s` without its leading white space.
pub open spec fn trim_start_view(s: Seq<char>) -> Seq<char>
    decreases s.len(),
{
    if s.len() > 0 && is_white_space(s[0]) {
        trim_start_view(s.drop_first())
    } else {
        s
    }
}

/// `s` without its trailing white space.
pub open spec fn trim_end_view(s: Seq<char>) -> Seq<char>
    decreases s.len(),
{
    if s.len() > 0 && is_white_space(s.last()) {
        trim_end_view(s.drop_last())
    } else {
        s
    }
}

/// `s` without leading and trailing white space, as `str::trim` returns it.
pub open spec fn trim_view(s: Seq<char>) -> Seq<char> {
    trim_end_view(trim_start_view(s))
}

/// A text is blank when nothing but white space is in it.
pub open spec fn is_blank_view(s: Seq<char>) -> bool {
    trim_view(s).len() == 0
}

pub fn is_whitespace_char(c: char) -> (r: bool)
    ensures
        r == is_white_space(c),
{
    let v = c as u32;
    (0x09 <= v && v <= 0x0d) || v == 0x20 || v == 0x85 || v == 0xa0 || v == 0x1680 || (0x2000
        <= v && v <= 0x200a) || v == 0x2028 || v == 0x2029 || v == 0x202f || v == 0x205f || v
        == 0x3000
}

proof fn lemma_trim_start_step(s: Seq<char>, i: int)
    requires
        0 <= i < s.len(),
        is_white_space(s[i]),
    ensures
        trim_start_view(s.subrange(i, s.len() as int)) == trim_start_view(
            s.subrange(i + 1, s.len() as int),
        ),
{
    let t = s.subrange(i, s.len() as int);
    assert(t.drop_first() =~= s.subrange(i + 1, s.len() as int));
}

proof fn lemma_trim_end_step(s: Seq<char>, i: int, j: int)
    requires
        0 <= i < j <= s.len(),
        is_white_space(s[j - 1]),
    ensures
        trim_end_view(s.subrange(i, j)) == trim_end_view(s.subrange(i, j - 1)),
{
    let t = s.subrange(i, j);
    assert(t.drop_last() =~= s.subrange(i, j - 1));
}

/// Returns `s` without leading and trailing white space.
pub fn trim(s: &str) -> (r: &str)
    ensures
        r@ == trim_view(s@),
{
    let n = s.unicode_len();
    let ghost full = s@;
    let mut i: usize = 0;
    assert(full.subrange(0, n as int) =~= full);
    while i < n && is_whitespace_char(s.get_char(i))
        invariant
            n == full.len(),
            full == s@,
            i <= n,
            trim_start_view(full) == trim_start_view(full.subrange(i as int, n as int)),
        decreases n - i,
    {
        proof {
            lemma_trim_start_step(full, i as int);
        }
        i = i + 1;
    }
    let ghost rest = full.subrange(i as int, n as int);
    assert(trim_start_view(rest) == rest) by {
        if rest.len() > 0 {
            assert(rest[0] == full[i as int]);
        }
    }
    let mut j: usize = n;
    assert(full.subrange(i as int, j as int) == rest);
    while j > i && is_whitespace_char(s.get_char(j - 1))
        invariant
            n == full.len(),
            full == s@,
            i <= j <= n,
            trim_end_view(rest) == trim_end_view(full.subrange(i as int, j as int)),
            rest == full.subrange(i as int, n as int),
        decreases j - i,
    {
        proof {
            lemma_trim_end_step(full, i as int, j as int);
        }
        j = j - 1;
    }
    let ghost kept = full.subrange(i as int, j as int);
    assert(trim_end_view(kept) == kept) by {
        if kept.len() > 0 {
            assert(kept.last() == full[j - 1]);
        }
    }
    s.substring_char(i, j)
}

/// Whether `s` holds nothing but white space.
pub fn is_blank(s: &str) -> (r: bool)
    ensures
        r == is_blank_view(s@),
{
    trim(s).unicode_len() == 0
}

/// The decimal digit character of `d`.
pub open spec fn digit_char(d: nat) -> char {
    if d == 0 {
        '0'
    } else if d == 1 {
        '1'
    } else if d == 2 {
        '2'
    } else if d == 3 {
        '3'
    } else if d == 4 {
        '4'
    } else if d == 5 {
        '5'
    } else if d == 6 {
        '6'
    } else if d == 7 {
        '7'
    } else if d == 8 {
        '8'
    } else {
        '9'
    }
}

/// The decimal rendering of `n`, with no sign and no leading zeros.
pub open spec fn decimal_view(n: nat) -> Seq<char>
    decreases n,
{
    if n < 10 {
        seq![digit_char(n)]
    } else {
        decimal_view(n / 10).push(digit_char(n % 10))
    }
}

/// `s` padded on the left with zeros to at least `width` characters.
pub open spec fn zero_padded(s: Seq<char>, width: nat) -> Seq<char> {
    if s.len() >= width {
        s
    } else {
        Seq::new((width - s.len()) as nat, |_i: int| '0') + s
    }
}

fn digit_str(d: u128) -> (r: &'static str)
    requires
        d < 10,
    ensures
        r@ == seq![digit_char(d as nat)],
{
    proof {
        reveal_strlit("0");
        reveal_strlit("1");
        reveal_strlit("2");
        reveal_strlit("3");
        reveal_strlit("4");
        reveal_strlit("5");
        reveal_strlit("6");
        reveal_strlit("7");
        reveal_strlit("8");
        reveal_strlit("9");
    }
    if d == 0 {
        "0"
    } else if d == 1 {
        "1"
    } else if d == 2 {
        "2"
    } else if d == 3 {
        "3"
    } else if d == 4 {
        "4"
    } else if d == 5 {
        "5"
    } else if d == 6 {
        "6"
    } else if d == 7 {
        "7"
    } else if d == 8 {
        "8"
    } else {
        "9"
    }
}

proof fn lemma_decimal_len(n: nat)
    ensures
        decimal_view(n).len() >= 1,
        n < 10 ==> decimal_view(n).len() == 1,
    decreases n,
{
    if n >= 10 {
        lemma_decimal_len(n / 10);
    }
}

/// Appends the decimal rendering of `value`, zero-padded to `width`.
pub fn push_decimal(out: &mut String, value: u128, width: usize)
    ensures
        final(out)@ == old(out)@ + zero_padded(decimal_view(value as nat), width as nat),
{
    // Collect the digits least significant first.
    let mut digits: Vec<u128> = Vec::new();
    let mut rest: u128 = value;
    let ghost mut low: Seq<char> = Seq::empty();
    while rest >= 10
        invariant
            decimal_view(value as nat) == decimal_view(rest as nat) + low,
            low.len() == digits.len(),
            forall|k: int|
                0 <= k < digits.len() ==> #[trigger] digits[k] < 10 && low[low.len() - 1 - k]
                    == digit_char(digits[k] as nat),
        decreases rest,
    {
        let d = rest % 10;
        let ghost old_low = low;
        let ghost old_rest = rest;
        digits.push(d);
        rest = rest / 10;
        proof {
            low = seq![digit_char(d as nat)] + old_low;
            assert(decimal_view(old_rest as nat) == decimal_view(rest as nat).push(
                digit_char(d as nat),
            ));
            assert(decimal_view(value as nat) =~= decimal_view(rest as nat) + low);
            assert forall|k: int| 0 <= k < digits.len() implies #[trigger] digits[k] < 10
                && low[low.len() - 1 - k] == digit_char(digits[k] as nat) by {
                if k < digits.len() - 1 {
                    assert(low[low.len() - 1 - k] == old_low[old_low.len() - 1 - k]);
                }
            }
        }
    }
    let ghost old_low = low;
    digits.push(rest);
    proof {
        low = seq![digit_char(rest as nat)] + old_low;
        assert(decimal_view(value as nat) =~= low);
        assert forall|k: int| 0 <= k < digits.len() implies #[trigger] digits[k] < 10
            && low[low.len() - 1 - k] == digit_char(digits[k] as nat) by {
            if k < digits.len() - 1 {
                assert(low[low.len() - 1 - k] == old_low[old_low.len() - 1 - k]);
            }
        }
    }
    // Zero padding, then the digits most significant first.
    let mut count: usize = digits.len();
    let ghost start = out@;
    let mut pad: usize = 0;
    let pad_total: usize = if width > count { width - count } else { 0 };
    while pad < pad_total
        invariant
            pad <= pad_total,
            out@ == start + Seq::new(pad as nat, |_i: int| '0'),
        decreases pad_total - pad,
    {
        proof {
            reveal_strlit("0");
        }
        out.append("0");
        pad = pad + 1;
        proof {
            assert(out@ =~= start + Seq::new(pad as nat, |_i: int| '0'));
        }
    }
    let ghost padded = out@;
    while count > 0
        invariant
            count <= digits.len(),
            low.len() == digits.len(),
            forall|k: int|
                0 <= k < digits.len() ==> #[trigger] digits[k] < 10 && low[low.len() - 1 - k]
                    == digit_char(digits[k] as nat),
            out@ == padded + low.subrange(0, (digits.len() - count) as int),
        decreases count,
    {
        count = count - 1;
        let d = digits[count];
        out.append(digit_str(d));
        proof {
            assert(low[low.len() - 1 - count] == digit_char(d as nat));
            assert(out@ =~= padded + low.subrange(0, (digits.len() - count) as int));
        }
    }
    proof {
        assert(low.subrange(0, low.len() as int) =~= low);
        lemma_decimal_len(value as nat);
        if width as nat > low.len() {
            assert(out@ =~= start + (Seq::new((width - low.len()) as nat, |_i: int| '0') + low));
        } else {
            assert(out@ =~= start + low);
        }
    }
}

/// Whether `a` and `b` hold the same characters.
pub fn same_text(a: &str, b: &str) -> (r: bool)
    ensures
        r == (a@ == b@),
{
    let n = a.unicode_len();
    if n != b.unicode_len() {
        return false;
    }
    let mut i: usize = 0;
    while i < n
        invariant
            n == a@.len(),
            n == b@.len(),
            i <= n,
            forall|k: int| 0 <= k < i ==> a@[k] == b@[k],
        decreases n - i,
    {
        if a.get_char(i) != b.get_char(i) {
            return false;
        }
        i = i + 1;
    }
    proof {
        assert(a@ =~= b@);
    }
    true
}

} // verus!
