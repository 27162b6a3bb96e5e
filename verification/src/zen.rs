use vstd::prelude::*;
use crate::topology::{ZenGeneration, ZenTopology};

verus! {

/// The structural generation heuristic: band the cores-per-die ratio.
/// Deliberately coarse; dies of 1-4 cores read as the first generation,
/// 5-8 as the third, 9-16 as the fourth, anything else as unknown.
pub open spec fn zen_generation_of(ccd_count: int, total_cores: int) -> ZenGeneration {
    if ccd_count == 0 || total_cores == 0 {
        ZenGeneration::Unknown
    } else {
        let cores_per_ccd = total_cores / ccd_count;
        if 1 <= cores_per_ccd && cores_per_ccd <= 4 {
            ZenGeneration::Zen
        } else if 5 <= cores_per_ccd && cores_per_ccd <= 8 {
            ZenGeneration::Zen3
        } else if 9 <= cores_per_ccd && cores_per_ccd <= 16 {
            ZenGeneration::Zen4
        } else {
            ZenGeneration::Unknown
        }
    }
}

/// Classify the processor generation from the topology's structure alone:
/// no vendor, family or model is read on this path.
pub fn detect_zen_generation(topology: &ZenTopology) -> (r: ZenGeneration)
    ensures
        r == zen_generation_of(topology.ccds@.len() as int, topology.total_cores as int),
{
    if topology.ccds.len() == 0 || topology.total_cores == 0 {
        return ZenGeneration::Unknown;
    }
    let cores_per_ccd = topology.total_cores / topology.ccds.len();
    if 1 <= cores_per_ccd && cores_per_ccd <= 4 {
        ZenGeneration::Zen
    } else if 5 <= cores_per_ccd && cores_per_ccd <= 8 {
        ZenGeneration::Zen3
    } else if 9 <= cores_per_ccd && cores_per_ccd <= 16 {
        ZenGeneration::Zen4
    } else {
        ZenGeneration::Unknown
    }
}

/// The (family, model) table of the descriptor-based classification, the
/// secondary path with higher confidence than the structural heuristic.
pub open spec fn generation_of_family_model(family: u32, model: u32) -> Option<ZenGeneration> {
    if family == 23 {
        if 1 <= model && model <= 31 {
            Some(ZenGeneration::Zen)
        } else {
            Some(ZenGeneration::Zen2)
        }
    } else if family == 25 {
        if model <= 15 {
            Some(ZenGeneration::Zen3)
        } else if 16 <= model && model <= 31 {
            Some(ZenGeneration::Zen4)
        } else if 32 <= model && model <= 79 {
            Some(ZenGeneration::Zen3)
        } else {
            Some(ZenGeneration::Zen4)
        }
    } else if family == 26 {
        Some(ZenGeneration::Zen5)
    } else {
        None
    }
}

/// Map a CPU family/model pair to a generation, when the family is known.
pub fn classify_family_model(family: u32, model: u32) -> (r: Option<ZenGeneration>)
    ensures
        r == generation_of_family_model(family, model),
{
    if family == 23 {
        if 1 <= model && model <= 31 {
            Some(ZenGeneration::Zen)
        } else {
            Some(ZenGeneration::Zen2)
        }
    } else if family == 25 {
        if model <= 15 {
            Some(ZenGeneration::Zen3)
        } else if 16 <= model && model <= 31 {
            Some(ZenGeneration::Zen4)
        } else if 32 <= model && model <= 79 {
            Some(ZenGeneration::Zen3)
        } else {
            Some(ZenGeneration::Zen4)
        }
    } else if family == 26 {
        Some(ZenGeneration::Zen5)
    } else {
        None
    }
}

/// Parsing of the OS-exposed CPU descriptor text ("cpu family" and "model"
/// lines), byte-wise over lines the caller has already split. As in the
/// descriptor format, the value stands between the first colon and the next
/// colon or the line end; a later matching line overwrites an earlier one.

pub open spec fn is_space(b: u8) -> bool {
    b == 32 || b == 9 || b == 13 || b == 10
}

pub open spec fn is_digit(b: u8) -> bool {
    48 <= b <= 57
}

/// The value of decimal digits, most significant first.
pub open spec fn digits_val(s: Seq<u8>) -> int
    decreases s.len(),
{
    if s.len() == 0 {
        0
    } else {
        digits_val(s.drop_last()) * 10 + (s.last() - 48)
    }
}

pub open spec fn all_digits(s: Seq<u8>) -> bool {
    forall|i: int| 0 <= i < s.len() ==> is_digit(#[trigger] s[i])
}

/// What parsing a trimmed decimal field yields: its value when it is
/// non-empty, all digits, and in range; nothing otherwise.
pub open spec fn parse_u32_of(s: Seq<u8>) -> Option<u32> {
    if s.len() > 0 && all_digits(s) && digits_val(s) <= u32::MAX {
        Some(digits_val(s) as u32)
    } else {
        None
    }
}

pub open spec fn trim_front(s: Seq<u8>) -> Seq<u8>
    decreases s.len(),
{
    if s.len() > 0 && is_space(s[0]) {
        trim_front(s.drop_first())
    } else {
        s
    }
}

pub open spec fn trim_back(s: Seq<u8>) -> Seq<u8>
    decreases s.len(),
{
    if s.len() > 0 && is_space(s.last()) {
        trim_back(s.drop_last())
    } else {
        s
    }
}

/// The field with surrounding whitespace removed.
pub open spec fn trimmed(s: Seq<u8>) -> Seq<u8> {
    trim_back(trim_front(s))
}

/// The first index of `b` at or after `from`; the length when absent.
pub open spec fn find_byte(s: Seq<u8>, b: u8, from: int) -> int
    decreases s.len() - from,
    when 0 <= from <= s.len()
{
    if from >= s.len() {
        s.len() as int
    } else if s[from] == b {
        from
    } else {
        find_byte(s, b, from + 1)
    }
}

/// The bytes between the first colon and the second colon or the line end;
/// nothing when the line has no colon.
pub open spec fn colon_field(s: Seq<u8>) -> Option<Seq<u8>> {
    let i = find_byte(s, 58, 0);
    if i == s.len() {
        None
    } else {
        Some(s.subrange(i + 1, find_byte(s, 58, i + 1)))
    }
}

pub open spec fn has_prefix(s: Seq<u8>, p: Seq<u8>) -> bool {
    s.len() >= p.len() && s.subrange(0, p.len() as int) == p
}

/// The bytes of "cpu family".
pub open spec fn family_prefix() -> Seq<u8> {
    seq![99u8, 112u8, 117u8, 32u8, 102u8, 97u8, 109u8, 105u8, 108u8, 121u8]
}

/// The bytes of "model".
pub open spec fn model_prefix() -> Seq<u8> {
    seq![109u8, 111u8, 100u8, 101u8, 108u8]
}

/// The bytes of "model name".
pub open spec fn model_name_prefix() -> Seq<u8> {
    seq![109u8, 111u8, 100u8, 101u8, 108u8, 32u8, 110u8, 97u8, 109u8, 101u8]
}

pub open spec fn is_family_line(l: Seq<u8>) -> bool {
    has_prefix(l, family_prefix())
}

pub open spec fn is_model_line(l: Seq<u8>) -> bool {
    has_prefix(l, model_prefix()) && !has_prefix(l, model_name_prefix())
}

/// The family value after scanning the lines in order: the parse result of
/// the last family line that has a colon, even when that parse failed.
pub open spec fn fold_family(lines: Seq<Seq<u8>>) -> Option<u32>
    decreases lines.len(),
{
    if lines.len() == 0 {
        None
    } else {
        let l = lines.last();
        if is_family_line(l) && colon_field(l) is Some {
            parse_u32_of(trimmed(colon_field(l)->Some_0))
        } else {
            fold_family(lines.drop_last())
        }
    }
}

/// The model value after scanning the lines in order.
pub open spec fn fold_model(lines: Seq<Seq<u8>>) -> Option<u32>
    decreases lines.len(),
{
    if lines.len() == 0 {
        None
    } else {
        let l = lines.last();
        if is_model_line(l) && colon_field(l) is Some {
            parse_u32_of(trimmed(colon_field(l)->Some_0))
        } else {
            fold_model(lines.drop_last())
        }
    }
}

/// What the descriptor text yields: the generation of the last-seen family
/// and model values, when both parsed.
pub open spec fn cpuinfo_generation(lines: Seq<Seq<u8>>) -> Option<ZenGeneration> {
    match (fold_family(lines), fold_model(lines)) {
        (Option::Some(f), Option::Some(m)) => generation_of_family_model(f, m),
        _ => None,
    }
}

/// Whether the line starts with the "cpu family" key.
fn starts_with_family(line: &Vec<u8>) -> (r: bool)
    ensures
        r == is_family_line(line@),
{
    let r = line.len() >= 10 && line[0] == 99 && line[1] == 112 && line[2] == 117 && line[3] == 32
        && line[4] == 102 && line[5] == 97 && line[6] == 109 && line[7] == 105 && line[8] == 108
        && line[9] == 121;
    proof {
        if r {
            assert(line@.subrange(0, 10) =~= family_prefix());
        } else {
            if line@.len() >= 10 && line@.subrange(0, 10) == family_prefix() {
                assert(line@[0] == family_prefix()[0]);
                assert(line@[1] == family_prefix()[1]);
                assert(line@[2] == family_prefix()[2]);
                assert(line@[3] == family_prefix()[3]);
                assert(line@[4] == family_prefix()[4]);
                assert(line@[5] == family_prefix()[5]);
                assert(line@[6] == family_prefix()[6]);
                assert(line@[7] == family_prefix()[7]);
                assert(line@[8] == family_prefix()[8]);
                assert(line@[9] == family_prefix()[9]);
            }
        }
    }
    r
}

fn starts_with_model(line: &Vec<u8>) -> (r: bool)
    ensures
        r == has_prefix(line@, model_prefix()),
{
    let r = line.len() >= 5 && line[0] == 109 && line[1] == 111 && line[2] == 100 && line[3] == 101
        && line[4] == 108;
    proof {
        if r {
            assert(line@.subrange(0, 5) =~= model_prefix());
        } else {
            if line@.len() >= 5 && line@.subrange(0, 5) == model_prefix() {
                assert(line@[0] == model_prefix()[0]);
                assert(line@[1] == model_prefix()[1]);
                assert(line@[2] == model_prefix()[2]);
                assert(line@[3] == model_prefix()[3]);
                assert(line@[4] == model_prefix()[4]);
            }
        }
    }
    r
}

fn starts_with_model_name(line: &Vec<u8>) -> (r: bool)
    ensures
        r == has_prefix(line@, model_name_prefix()),
{
    let r = line.len() >= 10 && line[0] == 109 && line[1] == 111 && line[2] == 100 && line[3]
        == 101 && line[4] == 108 && line[5] == 32 && line[6] == 110 && line[7] == 97 && line[8]
        == 109 && line[9] == 101;
    proof {
        if r {
            assert(line@.subrange(0, 10) =~= model_name_prefix());
        } else {
            if line@.len() >= 10 && line@.subrange(0, 10) == model_name_prefix() {
                assert(line@[0] == model_name_prefix()[0]);
                assert(line@[1] == model_name_prefix()[1]);
                assert(line@[2] == model_name_prefix()[2]);
                assert(line@[3] == model_name_prefix()[3]);
                assert(line@[4] == model_name_prefix()[4]);
                assert(line@[5] == model_name_prefix()[5]);
                assert(line@[6] == model_name_prefix()[6]);
                assert(line@[7] == model_name_prefix()[7]);
                assert(line@[8] == model_name_prefix()[8]);
                assert(line@[9] == model_name_prefix()[9]);
            }
        }
    }
    r
}

/// Find the first `b` at or after `from`, the length when absent.
fn find_byte_from(line: &Vec<u8>, b: u8, from: usize) -> (r: usize)
    requires
        from <= line@.len(),
    ensures
        r == find_byte(line@, b, from as int),
        from <= r <= line@.len(),
        r < line@.len() ==> line@[r as int] == b,
{
    let n = line.len();
    let mut i: usize = from;
    while i < n
        invariant
            n == line@.len(),
            from <= i <= n,
            find_byte(line@, b, from as int) == find_byte(line@, b, i as int),
        decreases n - i,
    {
        if line[i] == b {
            return i;
        }
        i = i + 1;
    }
    n
}

/// Digit values below a prefix never shrink as digits are appended.
proof fn lemma_digits_val_grows(s: Seq<u8>, k: int)
    requires
        0 <= k <= s.len(),
        all_digits(s),
    ensures
        digits_val(s) >= digits_val(s.take(k)),
        digits_val(s.take(k)) >= 0,
    decreases s.len() - k,
{
    if k == s.len() {
        assert(s.take(k) =~= s);
        lemma_digits_val_nonneg(s);
    } else {
        lemma_digits_val_grows(s, k + 1);
        lemma_digits_val_nonneg(s.take(k));
        assert(s.take(k + 1).drop_last() =~= s.take(k));
        assert(is_digit(s[k]));
        assert(digits_val(s.take(k + 1)) == digits_val(s.take(k)) * 10 + (s[k] - 48));
    }
}

proof fn lemma_digits_val_nonneg(s: Seq<u8>)
    requires
        all_digits(s),
    ensures
        digits_val(s) >= 0,
    decreases s.len(),
{
    if s.len() > 0 {
        assert forall|i: int| 0 <= i < s.len() - 1 implies is_digit(#[trigger] s.drop_last()[i]) by {
            assert(s.drop_last()[i] == s[i]);
        }
        lemma_digits_val_nonneg(s.drop_last());
    }
}

/// Parse the trimmed slice `line[lo..hi]` as a decimal number.
fn parse_field(line: &Vec<u8>, lo: usize, hi: usize) -> (r: Option<u32>)
    requires
        lo <= hi <= line@.len(),
    ensures
        r == parse_u32_of(trimmed(line@.subrange(lo as int, hi as int))),
{
    let ghost orig = line@.subrange(lo as int, hi as int);
    let mut a: usize = lo;
    let mut b: usize = hi;
    while a < b && (line[a] == 32 || line[a] == 9 || line[a] == 13 || line[a] == 10)
        invariant
            lo <= a <= b <= hi <= line@.len(),
            trim_front(orig) == trim_front(line@.subrange(a as int, b as int)),
        decreases b - a,
    {
        proof {
            assert(line@.subrange(a as int, b as int).drop_first() =~= line@.subrange(
                a + 1 as int,
                b as int,
            ));
        }
        a = a + 1;
    }
    proof {
        assert(trim_front(line@.subrange(a as int, b as int)) == line@.subrange(
            a as int,
            b as int,
        ));
    }
    while a < b && (line[b - 1] == 32 || line[b - 1] == 9 || line[b - 1] == 13 || line[b - 1]
        == 10)
        invariant
            lo <= a <= b <= hi <= line@.len(),
            trimmed(orig) == trim_back(line@.subrange(a as int, b as int)),
        decreases b - a,
    {
        proof {
            assert(line@.subrange(a as int, b as int).drop_last() =~= line@.subrange(
                a as int,
                b - 1 as int,
            ));
        }
        b = b - 1;
    }
    proof {
        assert(trimmed(orig) == line@.subrange(a as int, b as int));
    }
    let ghost field = line@.subrange(a as int, b as int);
    if a == b {
        proof {
            assert(field.len() == 0);
        }
        return None;
    }
    let mut val: u64 = 0;
    let mut i: usize = a;
    while i < b
        invariant
            lo <= a <= i <= b <= hi <= line@.len(),
            a < b,
            field == line@.subrange(a as int, b as int),
            trimmed(line@.subrange(lo as int, hi as int)) == field,
            all_digits(field.take(i - a)),
            val == digits_val(field.take(i - a)),
            val <= u32::MAX,
        decreases b - i,
    {
        let c = line[i];
        proof {
            assert(field.take(i - a + 1).drop_last() =~= field.take(i - a));
            assert(field.take(i - a + 1).last() == line@[i as int]);
        }
        if c < 48 || c > 57 {
            proof {
                assert(field[i - a] == c);
                assert(!is_digit(field[i - a]));
                assert(!all_digits(field));
            }
            return None;
        }
        let d = (c - 48) as u64;
        let next = val * 10 + d;
        if next > 0xFFFF_FFFF {
            proof {
                assert(all_digits(field.take(i - a + 1)));
                assert(digits_val(field.take(i - a + 1)) == next);
                if all_digits(field) {
                    lemma_digits_val_grows(field, i - a + 1);
                    assert(digits_val(field) > u32::MAX);
                }
            }
            return None;
        }
        val = next;
        i = i + 1;
    }
    proof {
        assert(field.take(b - a as int) =~= field);
    }
    Some(val as u32)
}

/// Read the CPU family and model from descriptor lines and classify them;
/// nothing when either value never appears or fails to parse.
pub fn detect_from_cpuinfo(lines: &Vec<Vec<u8>>) -> (r: Option<ZenGeneration>)
    ensures
        r == cpuinfo_generation(lines@.map_values(|l: Vec<u8>| l@)),
{
    let ghost view = lines@.map_values(|l: Vec<u8>| l@);
    let n = lines.len();
    let mut family: Option<u32> = None;
    let mut model: Option<u32> = None;
    let mut i: usize = 0;
    while i < n
        invariant
            n == lines@.len(),
            view == lines@.map_values(|l: Vec<u8>| l@),
            0 <= i <= n,
            family == fold_family(view.take(i as int)),
            model == fold_model(view.take(i as int)),
        decreases n - i,
    {
        proof {
            assert(view.take(i + 1 as int).drop_last() =~= view.take(i as int));
            assert(view.take(i + 1 as int).last() == view[i as int]);
            assert(view[i as int] == lines@[i as int]@);
        }
        let line = &lines[i];
        if starts_with_family(line) {
            let ci = find_byte_from(line, 58, 0);
            if ci < line.len() {
                let cj = find_byte_from(line, 58, ci + 1);
                family = parse_field(line, ci + 1, cj);
                proof {
                    assert(colon_field(line@) == Some(line@.subrange(ci + 1 as int, cj as int)));
                }
            }
        }
        if starts_with_model(line) && !starts_with_model_name(line) {
            let ci = find_byte_from(line, 58, 0);
            if ci < line.len() {
                let cj = find_byte_from(line, 58, ci + 1);
                model = parse_field(line, ci + 1, cj);
                proof {
                    assert(colon_field(line@) == Some(line@.subrange(ci + 1 as int, cj as int)));
                }
            }
        }
        i = i + 1;
    }
    proof {
        assert(view.take(n as int) =~= view);
    }
    match (family, model) {
        (Option::Some(f), Option::Some(m)) => classify_family_model(f, m),
        _ => None,
    }
}


} // verus!
