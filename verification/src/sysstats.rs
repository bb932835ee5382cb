//! System statistics read from `/proc` and `df`: CPU counters and their change
//! between samples, memory in use, disk usage, and network byte counters.
use vstd::prelude::*;
use crate::text::{
    chars_of, has_prefix, lines_exec, lines_of, parse_u64, parse_unsigned, starts_with, trim,
    trim_exec, views, words, words_exec,
};

verus! {

pub open spec fn u64_or_zero(o: Option<nat>) -> nat {
    match o {
        Some(v) => v,
        None => 0,
    }
}

/// The words that read as `u64` numbers, in order.
pub open spec fn numbers(ws: Seq<Seq<char>>) -> Seq<nat>
    decreases ws.len(),
{
    if ws.len() == 0 {
        Seq::empty()
    } else {
        let rest = numbers(ws.drop_last());
        match parse_unsigned(ws.last(), u64::MAX as nat) {
            Some(v) => rest.push(v),
            None => rest,
        }
    }
}

pub open spec fn sum(s: Seq<nat>) -> nat
    decreases s.len(),
{
    if s.len() == 0 {
        0
    } else {
        sum(s.drop_last()) + s.last()
    }
}

pub open spec fn first_line(text: Seq<char>) -> Seq<char> {
    if lines_of(text).len() > 0 {
        lines_of(text)[0]
    } else {
        Seq::empty()
    }
}

/// The CPU counters of `/proc/stat`: the numbers after the label on its first line.
pub open spec fn cpu_numbers(stat: Seq<char>) -> Seq<nat> {
    let w = words(first_line(stat));
    if w.len() == 0 {
        Seq::empty()
    } else {
        numbers(w.skip(1))
    }
}

/// The idle counter (the fourth number) and the total of all counters (taken modulo
/// 2^64, as `u64` sums wrap), when the line has at least four numbers.
pub open spec fn cpu_sample_spec(stat: Seq<char>) -> Option<(u64, u64)> {
    let n = cpu_numbers(stat);
    if n.len() < 4 {
        None
    } else {
        Some((n[3] as u64, (sum(n) % 0x1_0000_0000_0000_0000) as u64))
    }
}

fn first_line_exec(c: &[char]) -> (r: Vec<char>)
    ensures
        r@ == first_line(c@),
{
    let ls = lines_exec(c);
    if ls.len() > 0 {
        assert(views(ls@)[0] == ls@[0]@);
        crate::text::slice_chars(ls[0].as_slice(), 0, ls[0].len())
    } else {
        Vec::new()
    }
}

/// The idle and total CPU counters from the contents of `/proc/stat`.
pub fn cpu_sample(stat: &str) -> (r: Option<(u64, u64)>)
    ensures
        r == cpu_sample_spec(stat@),
{
    let c = chars_of(stat);
    let l = first_line_exec(c.as_slice());
    proof {
        assert(l@.subrange(0, l@.len() as int) =~= l@);
    }
    let w = words_exec(l.as_slice());
    let ghost ws = views(w@).skip(1);
    if w.len() == 0 {
        return None;
    }
    let mut nums: Vec<u64> = Vec::new();
    let mut total: u64 = 0;
    let mut i: usize = 1;
    assert(ws.take(0) =~= Seq::<Seq<char>>::empty());
    while i < w.len()
        invariant
            1 <= i <= w@.len(),
            ws == views(w@).skip(1),
            nums@.map_values(|v: u64| v as nat) == numbers(ws.take(i - 1)),
            total as nat == sum(numbers(ws.take(i - 1))) % 0x1_0000_0000_0000_0000,
        decreases w@.len() - i,
    {
        let ghost prefix = ws.take(i - 1);
        let ghost next = ws.take(i as int);
        assert(views(w@)[i as int] == w@[i as int]@);
        assert(next.drop_last() =~= prefix);
        assert(next.last() == w@[i as int]@);
        let ghost before = nums@.map_values(|v: u64| v as nat);
        match parse_u64(w[i].as_slice()) {
            Some(v) => {
                assert(numbers(next) == numbers(prefix).push(v as nat));
                nums.push(v);
                let t: u128 = ((total as u128) + (v as u128)) % 0x1_0000_0000_0000_0000;
                proof {
                    let s0 = sum(numbers(prefix));
                    assert(numbers(next).drop_last() =~= numbers(prefix));
                    assert((s0 % 0x1_0000_0000_0000_0000 + v) % 0x1_0000_0000_0000_0000 == (s0 + v)
                        % 0x1_0000_0000_0000_0000) by (nonlinear_arith);
                }
                total = t as u64;
                assert(nums@.map_values(|v: u64| v as nat) =~= before.push(v as nat));
            },
            None => {
                assert(numbers(next) == numbers(prefix));
            },
        }
        i = i + 1;
    }
    assert(ws.take(i - 1) =~= ws);
    if nums.len() < 4 {
        return None;
    }
    assert(nums@.map_values(|v: u64| v as nat)[3] == nums@[3] as nat);
    Some((nums[3], total))
}

/// The change of the CPU counters since the previous sample, as
/// `(total change, idle change)`; a counter that went down counts as no change.
pub fn cpu_delta(prev_total: u64, prev_idle: u64, total: u64, idle: u64) -> (r: (u64, u64))
    ensures
        r.0 == if total >= prev_total {
            (total - prev_total) as u64
        } else {
            0u64
        },
        r.1 == if idle >= prev_idle {
            (idle - prev_idle) as u64
        } else {
            0u64
        },
{
    let t = if total >= prev_total {
        total - prev_total
    } else {
        0
    };
    let i = if idle >= prev_idle {
        idle - prev_idle
    } else {
        0
    };
    (t, i)
}

/// The number in the second word of a line, or 0.
pub open spec fn second_number(line: Seq<char>) -> nat {
    let w = words(line);
    if w.len() > 1 {
        u64_or_zero(parse_unsigned(w[1], u64::MAX as nat))
    } else {
        0
    }
}

/// The `MemTotal` and `MemAvailable` values of `/proc/meminfo` (in kB), the last
/// line of each kind counting, 0 where there is none.
pub open spec fn meminfo_scan(ls: Seq<Seq<char>>) -> (nat, nat)
    decreases ls.len(),
{
    if ls.len() == 0 {
        (0, 0)
    } else {
        let (t, a) = meminfo_scan(ls.drop_last());
        let l = ls.last();
        if has_prefix(l, "MemTotal:"@) {
            (second_number(l), a)
        } else if has_prefix(l, "MemAvailable:"@) {
            (t, second_number(l))
        } else {
            (t, a)
        }
    }
}

/// Memory in use and in total, in MiB.
pub open spec fn memory_spec(meminfo: Seq<char>) -> (u64, u64) {
    let (t, a) = meminfo_scan(lines_of(meminfo));
    let used: nat = if t >= a {
        (t - a) as nat
    } else {
        0
    };
    ((used / 1024) as u64, (t / 1024) as u64)
}

fn second_number_exec(l: &[char]) -> (r: u64)
    ensures
        r as nat == second_number(l@),
{
    let w = words_exec(l);
    if w.len() > 1 {
        assert(views(w@)[1] == w@[1]@);
        match parse_u64(w[1].as_slice()) {
            Some(v) => v,
            None => 0,
        }
    } else {
        0
    }
}

/// Memory in use (total less available) and in total, in MiB, from `/proc/meminfo`.
pub fn memory_usage(meminfo: &str) -> (r: (u64, u64))
    ensures
        r == memory_spec(meminfo@),
{
    let c = chars_of(meminfo);
    let ls = lines_exec(c.as_slice());
    let ghost lv = views(ls@);
    let total_key = chars_of("MemTotal:");
    let avail_key = chars_of("MemAvailable:");
    let mut t: u64 = 0;
    let mut a: u64 = 0;
    let mut k: usize = 0;
    assert(lv.take(0) =~= Seq::<Seq<char>>::empty());
    while k < ls.len()
        invariant
            k <= ls@.len(),
            lv == views(ls@),
            total_key@ == "MemTotal:"@,
            avail_key@ == "MemAvailable:"@,
            (t as nat, a as nat) == meminfo_scan(lv.take(k as int)),
        decreases ls@.len() - k,
    {
        assert(lv[k as int] == ls@[k as int]@);
        assert(lv.take(k + 1).drop_last() =~= lv.take(k as int));
        assert(lv.take(k + 1).last() == lv[k as int]);
        if starts_with(ls[k].as_slice(), total_key.as_slice()) {
            t = second_number_exec(ls[k].as_slice());
        } else if starts_with(ls[k].as_slice(), avail_key.as_slice()) {
            a = second_number_exec(ls[k].as_slice());
        }
        k = k + 1;
    }
    assert(lv.take(k as int) =~= lv);
    let used = if t >= a {
        t - a
    } else {
        0
    };
    (used / 1024, t / 1024)
}

/// Bytes used and in total on a file system, from the second line of
/// `df -B1 --output=used,size`, each 0 where it does not read as a number; none
/// when that line has fewer than two words.
pub open spec fn disk_spec(df: Seq<char>) -> Option<(u64, u64)> {
    let ls = lines_of(df);
    let line = if ls.len() > 1 {
        ls[1]
    } else {
        Seq::empty()
    };
    let w = words(line);
    if w.len() >= 2 {
        Some(
            (
                u64_or_zero(parse_unsigned(w[0], u64::MAX as nat)) as u64,
                u64_or_zero(parse_unsigned(w[1], u64::MAX as nat)) as u64,
            ),
        )
    } else {
        None
    }
}

pub fn disk_usage(df: &str) -> (r: Option<(u64, u64)>)
    ensures
        r == disk_spec(df@),
{
    let c = chars_of(df);
    let ls = lines_exec(c.as_slice());
    let line = if ls.len() > 1 {
        assert(views(ls@)[1] == ls@[1]@);
        crate::text::slice_chars(ls[1].as_slice(), 0, ls[1].len())
    } else {
        Vec::new()
    };
    proof {
        if ls@.len() > 1 {
            assert(ls@[1]@.subrange(0, ls@[1]@.len() as int) =~= ls@[1]@);
        } else {
            assert(line@ =~= Seq::<char>::empty());
        }
    }
    let w = words_exec(line.as_slice());
    if w.len() >= 2 {
        assert(views(w@)[0] == w@[0]@);
        assert(views(w@)[1] == w@[1]@);
        let used = match parse_u64(w[0].as_slice()) {
            Some(v) => v,
            None => 0,
        };
        let total = match parse_u64(w[1].as_slice()) {
            Some(v) => v,
            None => 0,
        };
        Some((used, total))
    } else {
        None
    }
}

/// A byte counter file's value, or 0 when it does not read as a number.
pub fn counter_value(text: &str) -> (r: u64)
    ensures
        r as nat == u64_or_zero(parse_unsigned(trim(text@), u64::MAX as nat)),
{
    let c = chars_of(text);
    let t = trim_exec(c.as_slice());
    match parse_u64(t.as_slice()) {
        Some(v) => v,
        None => 0,
    }
}

/// The sum of counters, taken modulo 2^64 as `u64` sums wrap.
pub fn sum_counters(values: &[u64]) -> (r: u64)
    ensures
        r as nat == sum(values@.map_values(|v: u64| v as nat)) % 0x1_0000_0000_0000_0000,
{
    let ghost vs = values@.map_values(|v: u64| v as nat);
    let mut total: u64 = 0;
    let mut i: usize = 0;
    assert(vs.take(0) =~= Seq::<nat>::empty());
    while i < values.len()
        invariant
            i <= values@.len(),
            vs == values@.map_values(|v: u64| v as nat),
            total as nat == sum(vs.take(i as int)) % 0x1_0000_0000_0000_0000,
        decreases values@.len() - i,
    {
        let v = values[i];
        assert(vs.take(i + 1).drop_last() =~= vs.take(i as int));
        assert(vs.take(i + 1).last() == v as nat);
        proof {
            let s0 = sum(vs.take(i as int));
            assert((s0 % 0x1_0000_0000_0000_0000 + v) % 0x1_0000_0000_0000_0000 == (s0 + v)
                % 0x1_0000_0000_0000_0000) by (nonlinear_arith);
        }
        total = (((total as u128) + (v as u128)) % 0x1_0000_0000_0000_0000) as u64;
        i = i + 1;
    }
    assert(vs.take(i as int) =~= vs);
    total
}

} // verus!
