//! Decisions of the separately executed resource launcher: its arguments, the
//! process status evidence that it runs unprivileged, and its report lines.
use crate::python::resource::{resource_policy_valid, stage_name, ResourceLimits, ResourceStage};
use crate::text::{
    append_decimal, append_str, chars_of, decimal, is_white_space, str_equal, utf8_bytes, white_space,
};
use vstd::prelude::*;

verus! {

/// The value of a digit in base 10 or 16, if the character is one.
pub open spec fn digit_value(c: char, hex: bool) -> Option<nat> {
    if '0' <= c && c <= '9' {
        Some((c as nat - '0' as nat) as nat)
    } else if hex && 'a' <= c && c <= 'f' {
        Some((c as nat - 'a' as nat + 10) as nat)
    } else if hex && 'A' <= c && c <= 'F' {
        Some((c as nat - 'A' as nat + 10) as nat)
    } else {
        None
    }
}

/// The base of a digit string.
pub open spec fn base(hex: bool) -> nat {
    if hex { 16 } else { 10 }
}

/// The value of a digit string, most significant first, if every character is a digit.
pub open spec fn digits_value(s: Seq<char>, hex: bool) -> Option<nat>
    decreases s.len(),
{
    if s.len() == 0 {
        Some(0)
    } else {
        match (digits_value(s.drop_last(), hex), digit_value(s.last(), hex)) {
            (Some(v), Some(d)) => Some(v * base(hex) + d),
            _ => None,
        }
    }
}

/// An unsigned number as `from_str`/`from_str_radix` accept it: an optional
/// `+`, at least one digit, and a value of at most `max`.
pub open spec fn parse_unsigned(s: Seq<char>, hex: bool, max: nat) -> Option<nat> {
    let body = if s.len() > 0 && s[0] == '+' { s.drop_first() } else { s };
    if body.len() == 0 {
        None
    } else {
        match digits_value(body, hex) {
            Some(v) => if v <= max { Some(v) } else { None },
            None => None,
        }
    }
}

proof fn lemma_digits_grow(s: Seq<char>, k: int, hex: bool)
    requires
        0 <= k <= s.len(),
        digits_value(s, hex) is Some,
    ensures
        digits_value(s.take(k), hex) is Some,
        digits_value(s.take(k), hex)->Some_0 <= digits_value(s, hex)->Some_0,
    decreases s.len(),
{
    if k < s.len() {
        lemma_digits_grow(s.drop_last(), k, hex);
        assert(s.drop_last().take(k) =~= s.take(k));
    } else {
        assert(s.take(k) =~= s);
    }
}

fn digit(c: char, hex: bool) -> (d: Option<u64>)
    ensures
        match digit_value(c, hex) {
            Some(v) => d == Some(v as u64),
            None => d is None,
        },
{
    if '0' <= c && c <= '9' {
        Some((c as u32 - '0' as u32) as u64)
    } else if hex && 'a' <= c && c <= 'f' {
        Some((c as u32 - 'a' as u32 + 10) as u64)
    } else if hex && 'A' <= c && c <= 'F' {
        Some((c as u32 - 'A' as u32 + 10) as u64)
    } else {
        None
    }
}

/// Parse an unsigned number from characters `s[lo..hi]`.
pub fn parse_number(s: &Vec<char>, lo: usize, hi: usize, hex: bool, max: u64) -> (r: Option<u64>)
    requires
        lo <= hi <= s@.len(),
        max >= 16,
    ensures
        match parse_unsigned(s@.subrange(lo as int, hi as int), hex, max as nat) {
            Some(v) => r == Some(v as u64),
            None => r is None,
        },
{
    let ghost t = s@.subrange(lo as int, hi as int);
    let mut start = lo;
    if lo < hi && s[lo] == '+' {
        start = lo + 1;
    }
    let ghost body = s@.subrange(start as int, hi as int);
    assert(body =~= (if t.len() > 0 && t[0] == '+' { t.drop_first() } else { t }));
    if start == hi {
        return None;
    }
    let b: u64 = if hex { 16 } else { 10 };
    let mut value: u64 = 0;
    let mut over = false;
    let mut i = start;
    assert(body.take(0) =~= Seq::<char>::empty());
    while i < hi
        invariant
            start <= i <= hi <= s@.len(),
            body == s@.subrange(start as int, hi as int),
            t == s@.subrange(lo as int, hi as int),
            body == (if t.len() > 0 && t[0] == '+' { t.drop_first() } else { t }),
            body.len() > 0,
            b == base(hex),
            max >= 16,
            digits_value(body.take(i - start), hex) is Some,
            !over ==> value == digits_value(body.take(i - start), hex)->Some_0 && value <= max,
            over ==> digits_value(body.take(i - start), hex)->Some_0 > max,
        decreases hi - i,
    {
        let d = match digit(s[i], hex) {
            Some(d) => d,
            None => {
                proof {
                    let k = i - start + 1;
                    assert(body.take(k).last() == s@[i as int]);
                    assert(body.take(k).drop_last() =~= body.take(i - start));
                    if digits_value(body, hex) is Some {
                        lemma_digits_grow(body, k, hex);
                    }
                }
                return None;
            },
        };
        proof {
            let k = i - start + 1;
            assert(body.take(k).last() == s@[i as int]);
            assert(body.take(k).drop_last() =~= body.take(i - start));
        }
        if !over {
            if value > (max - d) / b {
                over = true;
                proof {
                    let v = value as int;
                    assert(v * b + d > max) by (nonlinear_arith)
                        requires v > (max - d) / (b as int), b == 10 || b == 16, d < b, max >= 16;
                }
            } else {
                proof {
                    let v = value as int;
                    assert(v * b + d <= max) by (nonlinear_arith)
                        requires v <= (max - d) / (b as int), b == 10 || b == 16, d < b, max >= 16, v >= 0;
                }
                value = value * b + d;
            }
        } else {
            proof {
                let prev = digits_value(body.take(i - start), hex)->Some_0;
                assert(prev * base(hex) + d >= prev) by (nonlinear_arith)
                    requires base(hex) >= 1;
            }
        }
        i = i + 1;
    }
    assert(body.take(hi - start) =~= body);
    if over {
        None
    } else {
        Some(value)
    }
}

/// The end of the line starting at `i`: the next `\n`, or the end of the text.
pub open spec fn line_end(s: Seq<char>, i: int) -> int
    decreases s.len() - i,
{
    if i >= s.len() || s[i] == '\n' {
        i
    } else {
        line_end(s, i + 1)
    }
}

pub proof fn lemma_line_end(s: Seq<char>, i: int)
    requires
        0 <= i <= s.len(),
    ensures
        i <= line_end(s, i) <= s.len(),
        forall|k: int| i <= k < line_end(s, i) ==> s[k] != '\n',
        line_end(s, i) < s.len() ==> s[line_end(s, i)] == '\n',
    decreases s.len() - i,
{
    if i < s.len() && s[i] != '\n' {
        lemma_line_end(s, i + 1);
    }
}

/// The end of the line's content: a `\r` before its `\n` is not content.
pub open spec fn content_end(s: Seq<char>, i: int) -> int {
    let e = line_end(s, i);
    if e < s.len() && e > i && s[e - 1] == '\r' {
        e - 1
    } else {
        e
    }
}

/// The first `:` in `s[i..e]`, or `e`.
pub open spec fn colon(s: Seq<char>, i: int, e: int) -> int
    decreases e - i,
{
    if i >= e || s[i] == ':' {
        i
    } else {
        colon(s, i + 1, e)
    }
}

/// The end of the token starting at `i`, before `e`.
pub open spec fn token_end(s: Seq<char>, i: int, e: int) -> int
    decreases e - i,
{
    if i >= e || is_white_space(s[i]) {
        i
    } else {
        token_end(s, i + 1, e)
    }
}

/// The white-space separated tokens of `s[i..e]`, as index ranges.
pub open spec fn tokens(s: Seq<char>, i: int, e: int) -> Seq<(int, int)>
    decreases e - i,
{
    if i >= e {
        Seq::empty()
    } else if is_white_space(s[i]) {
        tokens(s, i + 1, e)
    } else {
        let j = token_end(s, i, e);
        if j <= i || j > e {
            Seq::empty()
        } else {
            seq![(i, j)] + tokens(s, j, e)
        }
    }
}

/// `s[i..e]` without leading and trailing white space, as an index range.
pub open spec fn trimmed(s: Seq<char>, i: int, e: int) -> (int, int)
    decreases e - i,
{
    if i < e && is_white_space(s[i]) {
        trimmed(s, i + 1, e)
    } else if i < e && is_white_space(s[e - 1]) {
        trimmed(s, i, e - 1)
    } else {
        (i, e)
    }
}

/// A status field the launcher inspects.
#[derive(Debug, Clone, Copy, PartialEq, Eq, Structural)]
pub enum StatusField {
    /// A field of no interest, or a line without a field.
    Other,
    /// Real, effective, saved and file-system user ids.
    Uid,
    /// Inheritable capabilities.
    CapInh,
    /// Permitted capabilities.
    CapPrm,
    /// Effective capabilities.
    CapEff,
    /// Ambient capabilities.
    CapAmb,
}

/// A user id token is a nonzero `u32`.
pub open spec fn token_id_ok(v: Option<nat>) -> bool {
    v matches Some(n) && n != 0
}

/// The four user ids are all present, numeric and nonzero.
pub open spec fn uid_ok(s: Seq<char>, a: int, e: int) -> bool {
    let t = tokens(s, a, e);
    &&& t.len() == 4
    &&& forall|k: int| 0 <= k < 4 ==> token_id_ok(#[trigger] parse_unsigned(s.subrange(t[k].0, t[k].1), false, u32::MAX as nat))
}

/// A capability set is the empty (zero) hexadecimal mask.
pub open spec fn cap_ok(s: Seq<char>, a: int, e: int) -> bool {
    let (lo, hi) = trimmed(s, a, e);
    parse_unsigned(s.subrange(lo, hi), true, u64::MAX as nat) == Some(0nat)
}

/// The field of the line starting at `i`, or `None` when the line refuses the status.
pub open spec fn line_field(s: Seq<char>, i: int) -> Option<StatusField> {
    let ce = content_end(s, i);
    let c = colon(s, i, ce);
    if c >= ce {
        Some(StatusField::Other)
    } else {
        let name = s.subrange(i, c);
        if name == "Uid"@ {
            if uid_ok(s, c + 1, ce) { Some(StatusField::Uid) } else { None }
        } else if name == "CapInh"@ || name == "CapPrm"@ || name == "CapEff"@ || name == "CapAmb"@ {
            if cap_ok(s, c + 1, ce) {
                Some(
                    if name == "CapInh"@ {
                        StatusField::CapInh
                    } else if name == "CapPrm"@ {
                        StatusField::CapPrm
                    } else if name == "CapEff"@ {
                        StatusField::CapEff
                    } else {
                        StatusField::CapAmb
                    },
                )
            } else {
                None
            }
        } else {
            Some(StatusField::Other)
        }
    }
}

/// The fields seen on the lines from `i` on, or `None` if a line refuses the status.
pub open spec fn status_fields(s: Seq<char>, i: int) -> Option<Set<StatusField>>
    decreases s.len() - i,
{
    if i < 0 || i >= s.len() {
        Some(Set::empty())
    } else {
        proof {
            lemma_line_end(s, i);
        }
        match line_field(s, i) {
            None => None,
            Some(f) => if line_end(s, i) >= s.len() {
                Some(Set::<StatusField>::empty().insert(f))
            } else {
                match status_fields(s, line_end(s, i) + 1) {
                    None => None,
                    Some(rest) => Some(rest.insert(f)),
                }
            },
        }
    }
}

/// Process status evidence of an unprivileged process: at most 16 KiB, every
/// inspected line well formed, nonzero user ids and empty capability sets, and
/// each inspected field present.
pub open spec fn unprivileged_status(text: Seq<char>) -> bool {
    &&& crate::text::utf8_bytes(text).len() <= 16_384
    &&& status_fields(text, 0) matches Some(seen)
    &&& seen.contains(StatusField::Uid)
    &&& seen.contains(StatusField::CapInh)
    &&& seen.contains(StatusField::CapPrm)
    &&& seen.contains(StatusField::CapEff)
    &&& seen.contains(StatusField::CapAmb)
}

fn find_line_end(s: &Vec<char>, i: usize) -> (e: usize)
    requires
        i <= s@.len(),
    ensures
        e == line_end(s@, i as int),
{
    let mut k = i;
    while k < s.len() && s[k] != '\n'
        invariant
            i <= k <= s@.len(),
            line_end(s@, i as int) == line_end(s@, k as int),
        decreases s@.len() - k,
    {
        k = k + 1;
    }
    k
}

fn find_colon(s: &Vec<char>, i: usize, e: usize) -> (c: usize)
    requires
        i <= e <= s@.len(),
    ensures
        c == colon(s@, i as int, e as int),
        i <= c <= e,
{
    let mut k = i;
    while k < e && s[k] != ':'
        invariant
            i <= k <= e <= s@.len(),
            colon(s@, i as int, e as int) == colon(s@, k as int, e as int),
        decreases e - k,
    {
        k = k + 1;
    }
    k
}

fn range_is(s: &Vec<char>, i: usize, c: usize, lit: &str) -> (b: bool)
    requires
        i <= c <= s@.len(),
    ensures
        b == (s@.subrange(i as int, c as int) == lit@),
{
    let l = chars_of(lit);
    if c - i != l.len() {
        return false;
    }
    let mut k: usize = 0;
    while k < l.len()
        invariant
            k <= l@.len(),
            c - i == l@.len(),
            i <= c <= s@.len(),
            l@ == lit@,
            forall|m: int| 0 <= m < k ==> s@[i + m] == l@[m],
        decreases l@.len() - k,
    {
        if s[i + k] != l[k] {
            assert(s@.subrange(i as int, c as int)[k as int] != lit@[k as int]);
            return false;
        }
        k = k + 1;
    }
    assert(s@.subrange(i as int, c as int) =~= lit@);
    true
}

fn uid_check(s: &Vec<char>, a: usize, e: usize) -> (b: bool)
    requires
        a <= e <= s@.len(),
    ensures
        b == uid_ok(s@, a as int, e as int),
{
    let ghost all = tokens(s@, a as int, e as int);
    let ghost mut done: Seq<(int, int)> = Seq::empty();
    let mut count: usize = 0;
    let mut k = a;
    while k < e
        invariant
            a <= k <= e <= s@.len(),
            all == tokens(s@, a as int, e as int),
            all == done + tokens(s@, k as int, e as int),
            count == done.len(),
            count <= 4,
            forall|m: int| 0 <= m < done.len() ==> token_id_ok(
                #[trigger] parse_unsigned(s@.subrange(done[m].0, done[m].1), false, u32::MAX as nat),
            ),
        decreases e - k,
    {
        if white_space(s[k]) {
            k = k + 1;
        } else {
            let mut j = k;
            while j < e && !white_space(s[j])
                invariant
                    k <= j <= e <= s@.len(),
                    token_end(s@, k as int, e as int) == token_end(s@, j as int, e as int),
                decreases e - j,
            {
                j = j + 1;
            }
            proof {
                assert(tokens(s@, k as int, e as int) == seq![(k as int, j as int)] + tokens(s@, j as int, e as int));
            }
            if count == 4 {
                proof {
                    let rest = tokens(s@, k as int, e as int);
                    assert(rest.len() >= 1);
                    assert(all.len() == done.len() + rest.len());
                    assert(all.len() > 4);
                }
                return false;
            }
            let v = parse_number(s, k, j, false, 0xffff_ffff);
            let ok = match v {
                Some(n) => n != 0,
                None => false,
            };
            if !ok {
                proof {
                    let rest = tokens(s@, k as int, e as int);
                    assert(all.len() == done.len() + rest.len());
                    assert(all[done.len() as int] == (k as int, j as int));
                    assert(!token_id_ok(parse_unsigned(s@.subrange(k as int, j as int), false, u32::MAX as nat)));
                    if all.len() == 4 {
                        let t = all[done.len() as int];
                        assert(!token_id_ok(parse_unsigned(s@.subrange(t.0, t.1), false, u32::MAX as nat)));
                    }
                }
                return false;
            }
            proof {
                assert(done.push((k as int, j as int)) + tokens(s@, j as int, e as int) =~= done + (seq![(k as int, j as int)]
                    + tokens(s@, j as int, e as int)));
                done = done.push((k as int, j as int));
            }
            count = count + 1;
            k = j;
        }
    }
    proof {
        assert(all =~= done);
    }
    count == 4
}

fn cap_check(s: &Vec<char>, a: usize, e: usize) -> (b: bool)
    requires
        a <= e <= s@.len(),
    ensures
        b == cap_ok(s@, a as int, e as int),
{
    let mut lo = a;
    let mut hi = e;
    while lo < hi && white_space(s[lo])
        invariant
            a <= lo <= hi,
            hi == e,
            e <= s@.len(),
            trimmed(s@, a as int, e as int) == trimmed(s@, lo as int, hi as int),
        decreases hi - lo,
    {
        lo = lo + 1;
    }
    while lo < hi && white_space(s[hi - 1])
        invariant
            a <= lo <= hi <= e <= s@.len(),
            lo == hi || !is_white_space(s@[lo as int]),
            trimmed(s@, a as int, e as int) == trimmed(s@, lo as int, hi as int),
        decreases hi - lo,
    {
        hi = hi - 1;
    }
    match parse_number(s, lo, hi, true, 0xffff_ffff_ffff_ffff) {
        Some(v) => v == 0,
        None => false,
    }
}

fn line_check(s: &Vec<char>, i: usize) -> (f: Option<StatusField>)
    requires
        i < s@.len(),
    ensures
        f == line_field(s@, i as int),
{
    proof {
        lemma_line_end(s@, i as int);
    }
    let e = find_line_end(s, i);
    let ce = if e < s.len() && e > i && s[e - 1] == '\r' { e - 1 } else { e };
    let c = find_colon(s, i, ce);
    if c >= ce {
        return Some(StatusField::Other);
    }
    if range_is(s, i, c, "Uid") {
        return if uid_check(s, c + 1, ce) { Some(StatusField::Uid) } else { None };
    }
    let inh = range_is(s, i, c, "CapInh");
    let prm = range_is(s, i, c, "CapPrm");
    let eff = range_is(s, i, c, "CapEff");
    let amb = range_is(s, i, c, "CapAmb");
    if inh || prm || eff || amb {
        if !cap_check(s, c + 1, ce) {
            return None;
        }
        return Some(
            if inh {
                StatusField::CapInh
            } else if prm {
                StatusField::CapPrm
            } else if eff {
                StatusField::CapEff
            } else {
                StatusField::CapAmb
            },
        );
    }
    Some(StatusField::Other)
}

/// Check process status text for evidence that the launcher runs unprivileged:
/// nonzero user ids and empty capability sets.
pub fn unprivileged(status: &str) -> (r: Result<(), (ResourceStage, Option<i32>)>)
    ensures
        r is Ok <==> unprivileged_status(status@),
        r is Err ==> r->Err_0 == (ResourceStage::Privileges, None::<i32>),
{
    broadcast use vstd::utf8::group_utf8_lib;
    let bytes = status.as_bytes();
    assert(bytes@ == crate::text::utf8_bytes(status@));
    if bytes.len() > 16_384 {
        return Err((ResourceStage::Privileges, None));
    }
    let s = chars_of(status);
    let mut uid = false;
    let mut inh = false;
    let mut prm = false;
    let mut eff = false;
    let mut amb = false;
    let ghost mut seen: Set<StatusField> = Set::empty();
    let mut i: usize = 0;
    while i < s.len()
        invariant
            s@ == status@,
            i <= s@.len(),
            status_fields(s@, 0) == (match status_fields(s@, i as int) {
                Some(rest) => Some(rest + seen),
                None => None::<Set<StatusField>>,
            }),
            uid == seen.contains(StatusField::Uid),
            inh == seen.contains(StatusField::CapInh),
            prm == seen.contains(StatusField::CapPrm),
            eff == seen.contains(StatusField::CapEff),
            amb == seen.contains(StatusField::CapAmb),
        decreases s@.len() - i,
    {
        proof {
            lemma_line_end(s@, i as int);
        }
        let f = match line_check(&s, i) {
            Some(f) => f,
            None => return Err((ResourceStage::Privileges, None)),
        };
        match f {
            StatusField::Uid => uid = true,
            StatusField::CapInh => inh = true,
            StatusField::CapPrm => prm = true,
            StatusField::CapEff => eff = true,
            StatusField::CapAmb => amb = true,
            StatusField::Other => {},
        }
        let e = find_line_end(&s, i);
        proof {
            let old_seen = seen;
            seen = seen.insert(f);
            match status_fields(s@, e + 1) {
                Some(rest) => {
                    assert(rest.insert(f) + old_seen =~= rest + seen);
                },
                None => {},
            }
            if e >= s@.len() {
                assert(Set::<StatusField>::empty().insert(f) + old_seen =~= Set::<StatusField>::empty() + seen);
            }
        }
        if e >= s.len() {
            i = s.len();
        } else {
            i = e + 1;
        }
    }
    proof {
        assert(Set::<StatusField>::empty() + seen =~= seen);
    }
    if uid && inh && prm && eff && amb {
        Ok(())
    } else {
        Err((ResourceStage::Privileges, None))
    }
}


/// The CPU seconds and address-space bytes that the launcher's arguments name:
/// after its own name come two unsigned numbers, `--`, and the interpreter.
pub open spec fn launch_numbers(args: Seq<Seq<char>>) -> Option<(nat, nat)> {
    if args.len() < 4 {
        None
    } else {
        match (
            parse_unsigned(args[0], false, u64::MAX as nat),
            parse_unsigned(args[1], false, u64::MAX as nat),
        ) {
            (Some(cpu), Some(bytes)) => if args[2] == "--"@ {
                Some((cpu, bytes))
            } else {
                None
            },
            _ => None,
        }
    }
}

/// The policy that the launcher installs for the given arguments, with the
/// address space rounded down to whole pages, if it accepts them.
pub open spec fn launch_policy_of(args: Seq<Seq<char>>, page: nat, infinity: nat) -> Option<(nat, nat)> {
    match launch_numbers(args) {
        None => None,
        Some((cpu, bytes)) => if cpu > u64::MAX || bytes > u64::MAX || page == 0 {
            None
        } else if !resource_policy_valid(cpu as u64, bytes as u64) {
            None
        } else {
            let rounded = bytes / page * page;
            if rounded >= infinity || cpu >= infinity || !resource_policy_valid(
                cpu as u64,
                rounded as u64,
            ) {
                None
            } else {
                Some((cpu, rounded))
            }
        },
    }
}

fn number_argument(a: &String) -> (r: Option<u64>)
    ensures
        match parse_unsigned(a@, false, u64::MAX as nat) {
            Some(v) => r == Some(v as u64),
            None => r is None,
        },
{
    let v = chars_of(a.as_str());
    assert(v@.subrange(0, v@.len() as int) =~= a@);
    parse_number(&v, 0, v.len(), false, 0xffff_ffff_ffff_ffff)
}

/// Read the launcher's arguments (after its own name) into a resource policy
/// for pages of `page` bytes, `infinity` being the kernel's unlimited value.
/// Every refusal is a configuration failure; the interpreter is `args[3]`.
pub fn launch_policy(args: &Vec<String>, page: u64, infinity: u64) -> (r: Result<
    ResourceLimits,
    (ResourceStage, Option<i32>),
>)
    ensures
        match launch_policy_of(args@.map_values(|a: String| a@), page as nat, infinity as nat) {
            Some((cpu, bytes)) => r matches Ok(l) && l@ == (cpu as u64, bytes as u64),
            None => r == Err::<ResourceLimits, (ResourceStage, Option<i32>)>(
                (ResourceStage::Configuration, None),
            ),
        },
{
    let ghost views = args@.map_values(|a: String| a@);
    let failure = (ResourceStage::Configuration, None);
    if args.len() < 4 {
        return Err(failure);
    }
    assert(views[0] == args@[0]@ && views[1] == args@[1]@ && views[2] == args@[2]@);
    let cpu = match number_argument(&args[0]) {
        Some(v) => v,
        None => return Err(failure),
    };
    let bytes = match number_argument(&args[1]) {
        Some(v) => v,
        None => return Err(failure),
    };
    if !str_equal(args[2].as_str(), "--") {
        return Err(failure);
    }
    let limits = match ResourceLimits::new(cpu, bytes) {
        Ok(l) => l,
        Err(_) => return Err(failure),
    };
    proof {
        assert(launch_numbers(views) == Some((cpu as nat, bytes as nat)));
        assert(limits@ == (cpu, bytes));
    }
    match limits.for_page_size(page, infinity) {
        Ok(l) => {
            proof {
                let rounded = (bytes as nat) / (page as nat) * (page as nat);
                assert(rounded <= bytes) by (nonlinear_arith)
                    requires
                        page > 0,
                        rounded == (bytes as nat) / (page as nat) * (page as nat),
                ;
                assert(l@.1 == rounded);
                assert(launch_policy_of(views, page as nat, infinity as nat) == Some(
                    (cpu as nat, rounded),
                ));
            }
            Ok(l)
        },
        Err(_) => Err(failure),
    }
}

/// The decimal spelling of a signed number, as `to_string` writes it.
pub open spec fn signed_decimal(n: int) -> Seq<u8> {
    if n < 0 {
        seq![45u8] + decimal((-n) as nat)
    } else {
        decimal(n as nat)
    }
}

/// The launcher's failure report line for a stage and OS error.
pub open spec fn report_text(stage: ResourceStage, errno: Option<i32>) -> Seq<u8> {
    utf8_bytes("{\"kind\":\"limitError\",\"stage\":\""@) + utf8_bytes(stage_name(stage))
        + utf8_bytes("\",\"errno\":"@) + match errno {
        Some(code) => signed_decimal(code as int),
        None => utf8_bytes("null"@),
    } + utf8_bytes("}\n"@)
}

/// The failure report line the launcher writes, if it fits the 64-byte bound
/// of the supervisor's smallest incoming line.
pub fn report_line(stage: ResourceStage, errno: Option<i32>) -> (r: Option<Vec<u8>>)
    ensures
        report_text(stage, errno).len() <= 64 ==> (r matches Some(v) && v@ == report_text(stage, errno)),
        report_text(stage, errno).len() > 64 ==> r is None,
{
    let mut v: Vec<u8> = Vec::new();
    append_str(&mut v, "{\"kind\":\"limitError\",\"stage\":\"");
    append_str(&mut v, stage.as_str());
    append_str(&mut v, "\",\"errno\":");
    match errno {
        Some(code) => {
            if code < 0 {
                v.push(45u8);
                let m: i64 = code as i64;
                append_decimal(&mut v, (-m) as u64);
            } else {
                append_decimal(&mut v, code as u64);
            }
        },
        None => append_str(&mut v, "null"),
    }
    append_str(&mut v, "}\n");
    assert(v@ =~= report_text(stage, errno));
    if v.len() <= 64 {
        Some(v)
    } else {
        None
    }
}

/// The launcher's confirmation of the installed limits.
pub open spec fn confirmation_text(cpu: nat, bytes: nat) -> Seq<u8> {
    utf8_bytes("{\"kind\":\"limits-v1\",\"cpu\":"@) + decimal(cpu) + utf8_bytes(",\"as\":"@)
        + decimal(bytes) + utf8_bytes("}\n"@)
}

/// The confirmation line for `limits`, prepared before the limits are
/// installed; a line over 64 bytes is a protocol failure.
pub fn confirmation_line(limits: ResourceLimits) -> (r: Result<Vec<u8>, (ResourceStage, Option<i32>)>)
    ensures
        confirmation_text(limits@.0 as nat, limits@.1 as nat).len() <= 64 ==> (r matches Ok(v) && v@
            == confirmation_text(limits@.0 as nat, limits@.1 as nat)),
        confirmation_text(limits@.0 as nat, limits@.1 as nat).len() > 64 ==> r == Err::<
            Vec<u8>,
            (ResourceStage, Option<i32>),
        >((ResourceStage::Protocol, None)),
{
    let mut v: Vec<u8> = Vec::new();
    append_str(&mut v, "{\"kind\":\"limits-v1\",\"cpu\":");
    append_decimal(&mut v, limits.cpu_seconds());
    append_str(&mut v, ",\"as\":");
    append_decimal(&mut v, limits.address_space_bytes());
    append_str(&mut v, "}\n");
    assert(v@ =~= confirmation_text(limits@.0 as nat, limits@.1 as nat));
    if v.len() <= 64 {
        Ok(v)
    } else {
        Err((ResourceStage::Protocol, None))
    }
}

/// The supervisor's start acknowledgement.
pub open spec fn acknowledgement_text() -> Seq<u8> {
    utf8_bytes("{\"kind\":\"start\"}\n"@)
}

/// Whether `input` is exactly the supervisor's start acknowledgement.
pub fn is_acknowledgement(input: &[u8]) -> (b: bool)
    ensures
        b == (input@ == acknowledgement_text()),
{
    broadcast use vstd::utf8::group_utf8_lib;
    let ack = "{\"kind\":\"start\"}\n".as_bytes();
    assert(ack@ == acknowledgement_text());
    if input.len() != ack.len() {
        return false;
    }
    let mut i: usize = 0;
    while i < ack.len()
        invariant
            input@.len() == ack@.len(),
            ack@ == acknowledgement_text(),
            i <= ack@.len(),
            forall|k: int| 0 <= k < i ==> input@[k] == ack@[k],
        decreases ack@.len() - i,
    {
        if input[i] != ack[i] {
            assert(input@[i as int] != ack@[i as int]);
            return false;
        }
        i = i + 1;
    }
    assert(input@ =~= ack@);
    true
}

} // verus!
