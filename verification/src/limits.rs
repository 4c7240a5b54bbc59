//! Limits on a container, read from text.

use crate::config::Resources;
use crate::text::{chars_of, read_row};
use vstd::prelude::*;

verus! {

/// How many digits a fraction of a CPU may have: a limit on CPU time is a number
/// of billionths.
pub const CPU_PLACES: usize = 9;

/// The largest limit that can be set.
pub const LARGEST_LIMIT: u64 = 0x7fff_ffff_ffff_ffff;

/// A row of zeros.
pub open spec fn zeros(n: nat) -> Seq<char> {
    Seq::new(n, |i: int| '0')
}

/// Whether `i` is the position of the point of `text`, with digits on both sides,
/// and no more of them behind it than a limit can hold.
pub open spec fn has_point(text: Seq<char>, i: int) -> bool {
    &&& 0 <= i < text.len()
    &&& text[i] == '.'
    &&& crate::text::row(text.take(i)) is Some
    &&& crate::text::row(text.skip(i + 1)) is Some
    &&& text.len() - i - 1 <= CPU_PLACES
}

/// The number of billionths of a CPU that a number of CPUs stands for: digits,
/// and possibly a point and a fraction. It is read off by moving the point.
pub open spec fn cpu_nanos(text: Seq<char>) -> Option<nat> {
    if exists|i: int| has_point(text, i) {
        let i = choose|i: int| has_point(text, i);
        let fraction = text.skip(i + 1);
        crate::text::row(text.take(i) + fraction + zeros((CPU_PLACES - fraction.len()) as nat))
    } else if crate::text::row(text) is Some {
        crate::text::row(text + zeros(CPU_PLACES as nat))
    } else {
        None
    }
}

/// The number of bytes in an amount of units.
pub open spec fn in_bytes(amount: nat, unit: char) -> Option<nat> {
    if unit == 'b' || unit == 'B' {
        Some(amount)
    } else if unit == 'k' || unit == 'K' {
        Some(amount * 0x400)
    } else if unit == 'm' || unit == 'M' {
        Some(amount * 0x10_0000)
    } else if unit == 'g' || unit == 'G' {
        Some(amount * 0x4000_0000)
    } else {
        None
    }
}

/// The number of bytes that an amount of memory stands for: digits, and possibly
/// a unit.
pub open spec fn memory_bytes(text: Seq<char>) -> Option<nat> {
    if crate::text::row(text) is Some {
        crate::text::row(text)
    } else if text.len() == 0 {
        None
    } else {
        match crate::text::row(text.drop_last()) {
            Some(amount) => in_bytes(amount, text.last()),
            None => None,
        }
    }
}

/// A number as a limit; one that is too large cannot be set.
pub open spec fn as_limit(number: Option<nat>) -> Option<i64> {
    match number {
        Some(n) => if n <= LARGEST_LIMIT {
            Some(n as i64)
        } else {
            None
        },
        None => None,
    }
}

impl Resources {
    /// The limit on CPU time, in billionths of a CPU. There is none if none is
    /// given, or if it cannot be read.
    pub open spec fn cpu(self) -> Option<i64> {
        match self.cpu_limit {
            Some(text) => as_limit(cpu_nanos(text@)),
            None => None,
        }
    }

    /// The limit on memory, in bytes. There is none if none is given, or if it
    /// cannot be read.
    pub open spec fn memory(self) -> Option<i64> {
        match self.memory_limit {
            Some(text) => as_limit(memory_bytes(text@)),
            None => None,
        }
    }
}

/// A number as a limit.
fn limit(number: u128) -> (limit: Option<i64>)
    ensures
        limit == as_limit(Some(number as nat)),
{
    if number <= LARGEST_LIMIT as u128 {
        Some(number as i64)
    } else {
        None
    }
}

/// Appends `chars[from..to]`.
fn append_chars(out: &mut Vec<char>, chars: &Vec<char>, from: usize, to: usize)
    requires
        from <= to <= chars@.len(),
    ensures
        final(out)@ == old(out)@ + chars@.subrange(from as int, to as int),
{
    let mut i: usize = from;
    assert(out@ =~= old(out)@ + chars@.subrange(from as int, from as int));
    while i < to
        invariant
            from <= i <= to <= chars@.len(),
            out@ == old(out)@ + chars@.subrange(from as int, i as int),
        decreases to - i,
    {
        out.push(chars[i]);
        i = i + 1;
        assert(out@ =~= old(out)@ + chars@.subrange(from as int, i as int));
    }
}

/// Appends a row of zeros.
fn append_zeros(out: &mut Vec<char>, n: usize)
    ensures
        final(out)@ == old(out)@ + zeros(n as nat),
{
    let mut i: usize = 0;
    assert(out@ =~= old(out)@ + zeros(0));
    while i < n
        invariant
            i <= n,
            out@ == old(out)@ + zeros(i as nat),
        decreases n - i,
    {
        out.push('0');
        i = i + 1;
        assert(out@ =~= old(out)@ + zeros(i as nat));
    }
}

/// Reads a row of digits as a limit.
fn row_limit(digits: &Vec<char>) -> (limit: Option<i64>)
    ensures
        limit == as_limit(crate::text::row(digits@)),
{
    assert(digits@.subrange(0, digits@.len() as int) =~= digits@);
    match read_row(digits, 0, digits.len()) {
        Some(n) => self::limit(n as u128),
        None => None,
    }
}

/// Whether `chars[from..to]` is a row of digits.
fn is_row(chars: &Vec<char>, from: usize, to: usize) -> (digits: bool)
    requires
        from <= to <= chars@.len(),
    ensures
        digits == (crate::text::row(chars@.subrange(from as int, to as int)) is Some),
{
    let ghost part = chars@.subrange(from as int, to as int);
    let mut i: usize = from;
    while i < to
        invariant
            from <= i <= to <= chars@.len(),
            part == chars@.subrange(from as int, to as int),
            forall|j: int| 0 <= j < i - from ==> crate::text::is_digit(#[trigger] part[j]),
        decreases to - i,
    {
        assert(part[i - from] == chars@[i as int]);
        if !('0' <= chars[i] && chars[i] <= '9') {
            return false;
        }
        i = i + 1;
    }
    from < to
}

/// Reads a number of CPUs, such as "0.5", in billionths of a CPU; `None` if it
/// cannot be read, or is too large.
pub fn read_cpus(text: &str) -> (nanos: Option<i64>)
    ensures
        nanos == as_limit(cpu_nanos(text@)),
{
    let chars: Vec<char> = chars_of(text);
    let len: usize = chars.len();
    let mut i: usize = 0;
    while i < len && chars[i] != '.'
        invariant
            chars@ == text@,
            len == chars@.len(),
            i <= len,
            forall|j: int| 0 <= j < i ==> #[trigger] chars@[j] != '.',
        decreases len - i,
    {
        i = i + 1;
    }
    let mut digits: Vec<char> = Vec::new();
    proof {
        lemma_one_point(text@, i as int);
        assert(text@.subrange(0, len as int) =~= text@);
    }
    if i == len {
        if !is_row(&chars, 0, len) {
            return None;
        }
        append_chars(&mut digits, &chars, 0, len);
        append_zeros(&mut digits, CPU_PLACES);
        assert(digits@ =~= text@ + zeros(CPU_PLACES as nat));
        return row_limit(&digits);
    }
    let places: usize = len - i - 1;
    proof {
        assert(!crate::text::is_digit(text@[i as int]));
        assert(text@.take(i as int) =~= chars@.subrange(0, i as int));
        assert(text@.skip(i + 1) =~= chars@.subrange(i + 1, len as int));
    }
    if places > CPU_PLACES || !is_row(&chars, 0, i) || !is_row(&chars, i + 1, len) {
        return None;
    }
    assert(has_point(text@, i as int));
    append_chars(&mut digits, &chars, 0, i);
    append_chars(&mut digits, &chars, i + 1, len);
    append_zeros(&mut digits, CPU_PLACES - places);
    assert(digits@ =~= text@.take(i as int) + text@.skip(i + 1) + zeros(
        (CPU_PLACES - places) as nat,
    ));
    row_limit(&digits)
}

/// Where the first point of a text is, is the only place where it can have one.
proof fn lemma_one_point(text: Seq<char>, first: int)
    requires
        0 <= first <= text.len(),
        forall|j: int| 0 <= j < first ==> #[trigger] text[j] != '.',
        first < text.len() ==> text[first] == '.',
    ensures
        forall|i: int| #[trigger] has_point(text, i) ==> i == first,
{
    assert forall|i: int| #[trigger] has_point(text, i) implies i == first by {
        if first < i {
            assert(text.take(i)[first] == '.');
            assert(!crate::text::is_digit(text.take(i)[first]));
        }
    }
}

/// Reads an amount of memory, such as "512m" or "1g", in bytes; `None` if it cannot
/// be read, or is too large.
pub fn read_memory(text: &str) -> (bytes: Option<i64>)
    ensures
        bytes == as_limit(memory_bytes(text@)),
{
    let chars: Vec<char> = chars_of(text);
    let len: usize = chars.len();
    assert(text@.subrange(0, len as int) =~= text@);
    if is_row(&chars, 0, len) {
        return row_limit(&chars);
    }
    if len == 0 {
        return None;
    }
    assert(text@.drop_last() =~= chars@.subrange(0, len - 1));
    let unit: char = chars[len - 1];
    match read_row(&chars, 0, len - 1) {
        Some(amount) => {
            let amount: u128 = amount as u128;
            if unit == 'b' || unit == 'B' {
                limit(amount)
            } else if unit == 'k' || unit == 'K' {
                limit(amount * 0x400)
            } else if unit == 'm' || unit == 'M' {
                limit(amount * 0x10_0000)
            } else if unit == 'g' || unit == 'G' {
                limit(amount * 0x4000_0000)
            } else {
                None
            }
        },
        None => None,
    }
}

/// A whole number of CPUs is read as that many CPUs.
pub proof fn law_whole_cpus_read_back(cpus: nat)
    ensures
        cpu_nanos(crate::text::decimal(cpus)) == Some(cpus * 1_000_000_000),
{
    let text: Seq<char> = crate::text::decimal(cpus);
    crate::text::law_decimal_reads_back(cpus);
    assert forall|i: int| !has_point(text, i) by {
        if 0 <= i < text.len() {
            assert(crate::text::is_digit(text[i]));
        }
    }
    lemma_zeros(text, CPU_PLACES as nat);
    reveal_with_fuel(tenfold, 10);
}

/// A number of CPUs with one digit behind the point is read as that many CPUs and
/// that many tenths of one.
pub proof fn law_tenths_of_cpus_read_back(cpus: nat, tenths: nat)
    requires
        tenths < 10,
    ensures
        cpu_nanos(
            crate::text::decimal(cpus) + seq!['.'] + crate::text::decimal(tenths),
        ) == Some(cpus * 1_000_000_000 + tenths * 100_000_000),
{
    let whole: Seq<char> = crate::text::decimal(cpus);
    let fraction: Seq<char> = crate::text::decimal(tenths);
    let text: Seq<char> = whole + seq!['.'] + fraction;
    let i: int = whole.len() as int;
    crate::text::law_decimal_reads_back(cpus);
    crate::text::law_decimal_reads_back(tenths);
    assert(text.take(i) =~= whole);
    assert(text.skip(i + 1) =~= fraction);
    assert(has_point(text, i));
    assert forall|j: int| 0 <= j < i implies #[trigger] text[j] != '.' by {
        assert(crate::text::is_digit(whole[j]));
    }
    lemma_one_point(text, i);
    let digits: Seq<char> = whole + fraction;
    assert(digits.drop_last() =~= whole);
    assert forall|j: int| 0 <= j < digits.len() implies crate::text::is_digit(
        #[trigger] digits[j],
    ) by {
        assert(digits[j] == if j < i {
            whole[j]
        } else {
            fraction[j - i]
        });
    }
    lemma_zeros(digits, 8);
    reveal_with_fuel(tenfold, 9);
}

/// An amount of memory with a unit is read as that many units.
pub proof fn law_memory_reads_back(amount: nat, unit: char)
    requires
        in_bytes(amount, unit) is Some,
    ensures
        memory_bytes(crate::text::decimal(amount).push(unit)) == in_bytes(amount, unit),
{
    let text: Seq<char> = crate::text::decimal(amount).push(unit);
    crate::text::law_decimal_reads_back(amount);
    assert(text.drop_last() =~= crate::text::decimal(amount));
    assert(!crate::text::is_digit(text[text.len() - 1]));
}

/// A number multiplied by ten `times` times.
spec fn tenfold(n: nat, times: nat) -> nat
    decreases times,
{
    if times == 0 {
        n
    } else {
        10 * tenfold(n, (times - 1) as nat)
    }
}

/// Zeros behind a row of digits multiply its number by ten.
proof fn lemma_zeros(digits: Seq<char>, n: nat)
    requires
        crate::text::row(digits) is Some,
    ensures
        crate::text::row(digits + zeros(n)) == Some(tenfold(crate::text::number(digits), n)),
    decreases n,
{
    let all: Seq<char> = digits + zeros(n);
    if n == 0 {
        assert(all =~= digits);
    } else {
        lemma_zeros(digits, (n - 1) as nat);
        let before: Seq<char> = digits + zeros((n - 1) as nat);
        assert(all =~= before.push('0'));
        assert(all.drop_last() =~= before);
        assert forall|j: int| 0 <= j < all.len() implies crate::text::is_digit(
            #[trigger] all[j],
        ) by {
            if j < before.len() {
                assert(all[j] == before[j]);
            }
        }
    }
}

/// What a number of CPUs with a fraction stands for: the CPUs, and the fraction by the
/// number of its digits.
pub proof fn law_fractions_of_cpus(whole: Seq<char>, fraction: Seq<char>)
    requires
        crate::text::row(whole) is Some,
        crate::text::row(fraction) is Some,
        fraction.len() <= 9,
    ensures
        cpu_nanos(whole + seq!['.'] + fraction) == Some(
            (crate::text::row(whole)->Some_0 * 1_000_000_000 + crate::text::row(fraction)->Some_0
                * vstd::arithmetic::power::pow(10, (9 - fraction.len()) as nat)) as nat,
        ),
{
    let text: Seq<char> = whole + seq!['.'] + fraction;
    let i: int = whole.len() as int;
    let padding: nat = (9 - fraction.len()) as nat;
    assert(text.take(i) =~= whole);
    assert(text.skip(i + 1) =~= fraction);
    assert(has_point(text, i));
    assert forall|j: int| 0 <= j < i implies #[trigger] text[j] != '.' by {
        assert(crate::text::is_digit(whole[j]));
    }
    lemma_one_point(text, i);
    let digits: Seq<char> = whole + fraction;
    lemma_rows_join(whole, fraction);
    lemma_zeros(digits, padding);
    lemma_tenfold_sum(
        crate::text::number(whole),
        fraction.len(),
        crate::text::number(fraction),
        padding,
    );
    lemma_tenfold_power(crate::text::number(fraction), padding);
    reveal_with_fuel(tenfold, 10);
    assert(tenfold(crate::text::number(whole), 9) == crate::text::number(whole) * 1_000_000_000);
    let n: nat = crate::text::number(fraction);
    let p: int = vstd::arithmetic::power::pow(10, padding);
    assert(n * p == p * n) by (nonlinear_arith);
}

/// Two rows of digits behind each other are a row: the first one counts ten times for
/// every digit of the second.
proof fn lemma_rows_join(a: Seq<char>, b: Seq<char>)
    requires
        crate::text::row(a) is Some,
        forall|i: int| 0 <= i < b.len() ==> crate::text::is_digit(#[trigger] b[i]),
    ensures
        crate::text::row(a + b) == Some(
            tenfold(crate::text::number(a), b.len()) + crate::text::number(b),
        ),
    decreases b.len(),
{
    let all: Seq<char> = a + b;
    assert forall|j: int| 0 <= j < all.len() implies crate::text::is_digit(#[trigger] all[j]) by {
        assert(all[j] == if j < a.len() {
            a[j]
        } else {
            b[j - a.len()]
        });
    }
    if b.len() == 0 {
        assert(all =~= a);
    } else {
        let before: Seq<char> = b.drop_last();
        lemma_rows_join(a, before);
        assert(all.drop_last() =~= a + before);
        assert(all.last() == b.last());
    }
}

/// Zeros behind a sum are zeros behind what is summed up.
proof fn lemma_tenfold_sum(a: nat, places: nat, b: nat, times: nat)
    ensures
        tenfold(tenfold(a, places) + b, times) == tenfold(a, places + times) + tenfold(b, times),
    decreases times,
{
    if times > 0 {
        lemma_tenfold_sum(a, places, b, (times - 1) as nat);
    }
}

/// Multiplying by ten again and again is multiplying by a power of ten.
proof fn lemma_tenfold_power(n: nat, times: nat)
    ensures
        tenfold(n, times) == vstd::arithmetic::power::pow(10, times) * n,
    decreases times,
{
    reveal(vstd::arithmetic::power::pow);
    if times > 0 {
        lemma_tenfold_power(n, (times - 1) as nat);
        let p: int = vstd::arithmetic::power::pow(10, (times - 1) as nat);
        assert((10 * p) * n == 10 * (p * n)) by (nonlinear_arith);
    }
}

/// What is a number of CPUs: digits, or digits, a point and up to nine digits, and
/// nothing else.
pub proof fn law_what_is_a_number_of_cpus(text: Seq<char>)
    ensures
        cpu_nanos(text) is Some ==> crate::text::row(text) is Some || exists|i: int|
            0 <= i < text.len() && #[trigger] text[i] == '.' && crate::text::row(text.take(i)) is Some
                && crate::text::row(text.skip(i + 1)) is Some && text.len() - i - 1 <= 9,
{
    if exists|i: int| has_point(text, i) {
        let i: int = choose|i: int| has_point(text, i);
        assert(text[i] == '.');
    }
}

/// What an amount of memory stands for: bytes without a unit, and otherwise 1024 times
/// as much for each of the units `k`, `m` and `g`; nothing else is one.
pub proof fn law_units_of_memory(digits: Seq<char>, unit: char)
    requires
        crate::text::row(digits) is Some,
        !('0' <= unit <= '9'),
    ensures
        ({
            let amount = crate::text::row(digits)->Some_0;
            &&& memory_bytes(digits) == Some(amount)
            &&& memory_bytes(digits.push(unit)) == if unit == 'b' || unit == 'B' {
                Some(amount)
            } else if unit == 'k' || unit == 'K' {
                Some((amount * 1024) as nat)
            } else if unit == 'm' || unit == 'M' {
                Some((amount * 1024 * 1024) as nat)
            } else if unit == 'g' || unit == 'G' {
                Some((amount * 1024 * 1024 * 1024) as nat)
            } else {
                None
            }
        }),
{
    let text: Seq<char> = digits.push(unit);
    assert(text.drop_last() =~= digits);
    assert(!crate::text::is_digit(text[text.len() - 1]));
}

/// What is an amount of memory: digits, or digits and one more character, and nothing
/// else.
pub proof fn law_what_is_an_amount_of_memory(text: Seq<char>)
    ensures
        memory_bytes(text) is Some ==> crate::text::row(text) is Some || text.len() > 0
            && crate::text::row(text.drop_last()) is Some,
{
}

/// What is read is the limit that the text stands for, and none if it stands for none
/// or for too large a one.
pub proof fn law_limits_are_read(text: &str, nanos: Option<i64>, bytes: Option<i64>)
    requires
        call_ensures(read_cpus, (text,), nanos),
        call_ensures(read_memory, (text,), bytes),
    ensures
        match cpu_nanos(text@) {
            Some(n) => if n <= i64::MAX {
                nanos == Some(n as i64)
            } else {
                nanos is None
            },
            None => nanos is None,
        },
        match memory_bytes(text@) {
            Some(n) => if n <= i64::MAX {
                bytes == Some(n as i64)
            } else {
                bytes is None
            },
            None => bytes is None,
        },
{
}

} // verus!
