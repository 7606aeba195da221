//! Bounded immutable component configuration, canonicalized before identity.
use crate::graph::yaml::YamlValue;
use crate::record::strmap::{bytes_less, bytes_lt, key_bytes};
use crate::text::{chars_of, decimal_chars};
use vstd::prelude::*;

verus! {

/// Maximum compact JSON bytes per component (inclusive).
pub const MAX_BYTES: usize = 65_536;
/// Maximum values including the root object (inclusive).
pub const MAX_VALUES: usize = 1024;
/// Maximum nesting depth, root at zero (inclusive).
pub const MAX_DEPTH: usize = 16;

/// UTF-8 width of a character.
pub open spec fn utf8_len(c: char) -> nat {
    if (c as u32) < 0x80 {
        1
    } else if (c as u32) < 0x800 {
        2
    } else if (c as u32) < 0x10000 {
        3
    } else {
        4
    }
}

/// Bytes a character takes inside a JSON string.
pub open spec fn escape_cost(c: char) -> nat {
    if c == '"' || c == '\\' || c == '\n' || c == '\r' || c == '\t' || c == '\u{8}' || c == '\u{c}' {
        2
    } else if (c as u32) <= 0x1f {
        6
    } else {
        utf8_len(c)
    }
}

/// Add `n` bytes to a running total, refusing overflow and the byte limit.
pub open spec fn charge(bytes: nat, n: nat) -> Result<nat, &'static str> {
    if bytes + n > usize::MAX {
        Err("configuration size overflow")
    } else if bytes + n > MAX_BYTES {
        Err("configuration byte limit")
    } else {
        Ok(bytes + n)
    }
}

/// Charge the escaped characters of a string body.
pub open spec fn charge_chars(s: Seq<char>, bytes: nat) -> Result<nat, &'static str>
    decreases s.len(),
{
    if s.len() == 0 {
        Ok(bytes)
    } else {
        match charge_chars(s.drop_last(), bytes) {
            Err(e) => Err(e),
            Ok(b) => charge(b, escape_cost(s.last())),
        }
    }
}

/// Charge a quoted JSON string.
pub open spec fn string_size(s: Seq<char>, bytes: nat) -> Result<nat, &'static str> {
    match charge(bytes, 2) {
        Err(e) => Err(e),
        Ok(b) => charge_chars(s, b),
    }
}

/// The decimal text of an integer.
pub open spec fn integer_text(n: int) -> Seq<char> {
    if n >= 0 {
        decimal_chars(n as nat)
    } else {
        seq!['-'] + decimal_chars((-n) as nat)
    }
}

/// Separator bytes between `n` elements.
pub open spec fn separators(n: nat) -> nat {
    if n == 0 { 0 } else { (n - 1) as nat }
}

/// Validate a value in document order at `depth`, with `count` values and
/// `bytes` bytes already charged: the new totals, or the first refusal.
pub open spec fn check_value(v: YamlValue, depth: nat, count: nat, bytes: nat) -> Result<(nat, nat), &'static str>
    decreases v, 0nat,
{
    if depth > MAX_DEPTH {
        Err("configuration depth limit")
    } else if count + 1 > MAX_VALUES {
        Err("configuration value limit")
    } else {
        let count = count + 1;
        match v {
            YamlValue::Null => match charge(bytes, 4) {
                Ok(b) => Ok((count, b)),
                Err(e) => Err(e),
            },
            YamlValue::Bool(x) => match charge(bytes, if x { 4 } else { 5 }) {
                Ok(b) => Ok((count, b)),
                Err(e) => Err(e),
            },
            YamlValue::Integer(n) => match charge(bytes, integer_text(n as int).len()) {
                Ok(b) => Ok((count, b)),
                Err(e) => Err(e),
            },
            YamlValue::Float => Err("configuration requires exact integers; floats unsupported"),
            YamlValue::String(s) => match string_size(s@, bytes) {
                Ok(b) => Ok((count, b)),
                Err(e) => Err(e),
            },
            YamlValue::Sequence(a) => match charge(bytes, 2) {
                Err(e) => Err(e),
                Ok(b) => match charge(b, separators(a@.len())) {
                    Err(e) => Err(e),
                    Ok(b) => check_items(a@, depth + 1, count, b),
                },
            },
            YamlValue::Mapping(m) => match charge(bytes, 2) {
                Err(e) => Err(e),
                Ok(b) => match charge(b, separators(m@.len())) {
                    Err(e) => Err(e),
                    Ok(b) => check_entries(m@, depth + 1, count, b),
                },
            },
            YamlValue::Tagged => Err("configuration YAML tags unsupported"),
        }
    }
}

/// Validate sequence elements in order.
pub open spec fn check_items(items: Seq<YamlValue>, depth: nat, count: nat, bytes: nat) -> Result<(nat, nat), &'static str>
    decreases items, 0nat,
{
    if items.len() == 0 {
        Ok((count, bytes))
    } else {
        match check_value(items[0], depth, count, bytes) {
            Err(e) => Err(e),
            Ok((c, b)) => check_items(items.drop_first(), depth, c, b),
        }
    }
}

/// Validate mapping entries in document order; keys must be strings.
pub open spec fn check_entries(entries: Seq<(YamlValue, YamlValue)>, depth: nat, count: nat, bytes: nat) -> Result<(nat, nat), &'static str>
    decreases entries, 0nat,
{
    if entries.len() == 0 {
        Ok((count, bytes))
    } else {
        match entries[0].0 {
            YamlValue::String(k) => match string_size(k@, bytes) {
                Err(e) => Err(e),
                Ok(b) => match charge(b, 1) {
                    Err(e) => Err(e),
                    Ok(b) => match check_value(entries[0].1, depth, count, b) {
                        Err(e) => Err(e),
                        Ok((c, b)) => check_entries(entries.drop_first(), depth, c, b),
                    },
                },
            },
            _ => Err("configuration keys must be strings"),
        }
    }
}

/// A lowercase hexadecimal digit.
pub open spec fn hex_char(d: nat) -> char {
    if d < 10 {
        crate::text::digit_char(d)
    } else if d == 10 {
        'a'
    } else if d == 11 {
        'b'
    } else if d == 12 {
        'c'
    } else if d == 13 {
        'd'
    } else if d == 14 {
        'e'
    } else {
        'f'
    }
}

/// The JSON text of one string character.
pub open spec fn escape_char(c: char) -> Seq<char> {
    if c == '"' {
        seq!['\\', '"']
    } else if c == '\\' {
        seq!['\\', '\\']
    } else if c == '\n' {
        seq!['\\', 'n']
    } else if c == '\r' {
        seq!['\\', 'r']
    } else if c == '\t' {
        seq!['\\', 't']
    } else if c == '\u{8}' {
        seq!['\\', 'b']
    } else if c == '\u{c}' {
        seq!['\\', 'f']
    } else if (c as u32) <= 0x1f {
        seq!['\\', 'u', '0', '0', hex_char(((c as u32) / 16) as nat), hex_char(((c as u32) % 16) as nat)]
    } else {
        seq![c]
    }
}

/// The escaped body of a JSON string.
pub open spec fn escape_all(s: Seq<char>) -> Seq<char>
    decreases s.len(),
{
    if s.len() == 0 {
        Seq::empty()
    } else {
        escape_all(s.drop_last()) + escape_char(s.last())
    }
}

/// A quoted JSON string.
pub open spec fn quote(s: Seq<char>) -> Seq<char> {
    seq!['"'] + escape_all(s) + seq!['"']
}

/// The characters of a string key, empty for any other key.
pub open spec fn key_chars(k: YamlValue) -> Seq<char> {
    match k {
        YamlValue::String(s) => s@,
        _ => Seq::empty(),
    }
}

/// Whether entry `a`'s key sorts strictly before entry `b`'s key.
pub open spec fn key_before(m: Seq<(YamlValue, YamlValue)>, a: int, b: int) -> bool {
    bytes_lt(key_bytes(key_chars(m[a].0)), key_bytes(key_chars(m[b].0)))
}

/// Insert entry index `j` before the first index whose key sorts after it.
pub open spec fn insert_index(m: Seq<(YamlValue, YamlValue)>, order: Seq<int>, j: int) -> Seq<int>
    decreases order.len(),
{
    if order.len() == 0 {
        seq![j]
    } else if key_before(m, j, order[0]) {
        seq![j] + order
    } else {
        seq![order[0]] + insert_index(m, order.drop_first(), j)
    }
}

/// Entry indices of the first `n` entries in key order (stable).
pub open spec fn key_order(m: Seq<(YamlValue, YamlValue)>, n: nat) -> Seq<int>
    decreases n,
{
    if n == 0 {
        Seq::empty()
    } else {
        insert_index(m, key_order(m, (n - 1) as nat), n - 1)
    }
}

/// Canonical compact JSON text: object keys sorted by byte order, arrays in
/// order, exact integers.
pub open spec fn json_text(v: YamlValue) -> Seq<char>
    decreases v, 0nat,
{
    match v {
        YamlValue::Null => "null"@,
        YamlValue::Bool(x) => if x { "true"@ } else { "false"@ },
        YamlValue::Integer(n) => integer_text(n as int),
        YamlValue::String(s) => quote(s@),
        YamlValue::Sequence(a) => seq!['['] + join_items(a@) + seq![']'],
        YamlValue::Mapping(m) => seq!['{'] + join_entries(m@, key_order(m@, m@.len())) + seq!['}'],
        _ => Seq::empty(),
    }
}

/// Comma-separated texts of sequence elements.
pub open spec fn join_items(items: Seq<YamlValue>) -> Seq<char>
    decreases items, 0nat,
{
    if items.len() == 0 {
        Seq::empty()
    } else if items.len() == 1 {
        json_text(items[0])
    } else {
        join_items(items.drop_last()) + seq![','] + json_text(items.last())
    }
}

/// The text of one mapping entry.
pub open spec fn entry_text(m: Seq<(YamlValue, YamlValue)>, j: int) -> Seq<char>
    decreases m, 0nat,
{
    if 0 <= j < m.len() {
        quote(key_chars(m[j].0)) + seq![':'] + json_text(m[j].1)
    } else {
        Seq::empty()
    }
}

/// Comma-separated entry texts in the given index order.
pub open spec fn join_entries(m: Seq<(YamlValue, YamlValue)>, order: Seq<int>) -> Seq<char>
    decreases m, order.len(),
{
    if order.len() == 0 {
        Seq::empty()
    } else if order.len() == 1 {
        entry_text(m, order[0])
    } else {
        join_entries(m, order.drop_last()) + seq![','] + entry_text(m, order.last())
    }
}

/// The decision on a raw configuration: canonical text, or the refusal.
pub open spec fn configuration_decode(v: YamlValue) -> Result<Seq<char>, &'static str> {
    if !(v is Mapping) {
        Err("configuration must be an object")
    } else {
        match check_value(v, 0, 0, 0) {
            Err(e) => Err(e),
            Ok(_) => Ok(json_text(v)),
        }
    }
}

/// An error at a prefix of a string stays the error of the whole string.
proof fn lemma_charge_chars_sticks(s: Seq<char>, bytes: nat, k: int)
    requires
        0 <= k <= s.len(),
        charge_chars(s.take(k), bytes) is Err,
    ensures
        charge_chars(s, bytes) == charge_chars(s.take(k), bytes),
    decreases s.len() - k,
{
    if k < s.len() {
        assert(s.take(k + 1).drop_last() =~= s.take(k));
        lemma_charge_chars_sticks(s, bytes, k + 1);
    } else {
        assert(s.take(k) =~= s);
    }
}

/// Add `n` to a running total under the byte limit.
fn charge_exec(bytes: &mut usize, n: usize) -> (r: Result<(), &'static str>)
    ensures
        match charge(*old(bytes) as nat, n as nat) {
            Ok(b) => r is Ok && *final(bytes) == b,
            Err(e) => r == Err::<(), &'static str>(e),
        },
{
    match bytes.checked_add(n) {
        None => Err("configuration size overflow"),
        Some(b) => {
            if b > MAX_BYTES {
                return Err("configuration byte limit");
            }
            *bytes = b;
            Ok(())
        },
    }
}

/// UTF-8 width of a character.
fn utf8_len_exec(c: char) -> (n: usize)
    ensures
        n == utf8_len(c),
{
    let u = c as u32;
    if u < 0x80 {
        1
    } else if u < 0x800 {
        2
    } else if u < 0x10000 {
        3
    } else {
        4
    }
}

/// Bytes a character takes inside a JSON string.
fn escape_cost_exec(c: char) -> (n: usize)
    ensures
        n == escape_cost(c),
{
    if c == '"' || c == '\\' || c == '\n' || c == '\r' || c == '\t' || c == '\u{8}' || c == '\u{c}' {
        2
    } else if (c as u32) <= 0x1f {
        6
    } else {
        utf8_len_exec(c)
    }
}

/// Charge a quoted JSON string.
fn string_size_exec(s: &str, bytes: &mut usize) -> (r: Result<(), &'static str>)
    ensures
        match string_size(s@, *old(bytes) as nat) {
            Ok(b) => r is Ok && *final(bytes) == b,
            Err(e) => r == Err::<(), &'static str>(e),
        },
{
    match charge_exec(bytes, 2) {
        Err(e) => return Err(e),
        Ok(()) => {},
    }
    let chars = chars_of(s);
    let ghost start = *bytes as nat;
    let mut i: usize = 0;
    while i < chars.len()
        invariant
            i <= chars@.len(),
            chars@ == s@,
            charge(*old(bytes) as nat, 2) == Ok::<nat, &'static str>(start),
            charge_chars(s@.take(i as int), start) == Ok::<nat, &'static str>(*bytes as nat),
        decreases chars@.len() - i,
    {
        let c = chars[i];
        proof {
            assert(s@.take(i + 1).drop_last() =~= s@.take(i as int));
            assert(s@.take(i + 1).last() == c);
        }
        match charge_exec(bytes, escape_cost_exec(c)) {
            Err(e) => {
                proof {
                    lemma_charge_chars_sticks(s@, start, i + 1);
                }
                return Err(e);
            },
            Ok(()) => {},
        }
        i = i + 1;
    }
    proof {
        assert(s@.take(i as int) =~= s@);
    }
    Ok(())
}

/// The number of decimal characters of an unsigned magnitude.
fn push_decimal_chars(out: &mut Vec<char>, n: u128)
    ensures
        final(out)@ == old(out)@ + decimal_chars(n as nat),
    decreases n,
{
    if n >= 10 {
        push_decimal_chars(out, n / 10);
    }
    let d = (n % 10) as u8;
    let c = if d == 0 { '0' } else if d == 1 { '1' } else if d == 2 { '2' } else if d == 3 { '3' }
    else if d == 4 { '4' } else if d == 5 { '5' } else if d == 6 { '6' } else if d == 7 { '7' }
    else if d == 8 { '8' } else { '9' };
    out.push(c);
    assert(final(out)@ =~= old(out)@ + decimal_chars(n as nat));
}

/// Append the decimal text of an integer.
fn push_integer(out: &mut Vec<char>, n: i128)
    ensures
        final(out)@ == old(out)@ + integer_text(n as int),
{
    if n >= 0 {
        push_decimal_chars(out, n as u128);
    } else {
        out.push('-');
        let m: u128 = ((-(n + 1)) as u128) + 1;
        assert(m == -n);
        push_decimal_chars(out, m);
        assert(final(out)@ =~= old(out)@ + integer_text(n as int));
    }
}

/// The decimal text of an integer, as an owned count of characters.
fn integer_len(n: i128) -> (len: usize)
    ensures
        len == integer_text(n as int).len(),
{
    let mut v: Vec<char> = Vec::new();
    push_integer(&mut v, n);
    assert(v@ =~= integer_text(n as int));
    v.len()
}

/// Validate a value in document order, accumulating counts and bytes.
#[verifier::loop_isolation(false)]
fn check_exec(v: &YamlValue, depth: usize, count: &mut usize, bytes: &mut usize) -> (r: Result<(), &'static str>)
    requires
        *old(count) <= MAX_VALUES,
        *old(bytes) <= MAX_BYTES,
        depth <= MAX_DEPTH + 1,
    ensures
        match check_value(*v, depth as nat, *old(count) as nat, *old(bytes) as nat) {
            Ok((c, b)) => r is Ok && *final(count) == c && *final(bytes) == b && c <= MAX_VALUES && b <= MAX_BYTES,
            Err(e) => r == Err::<(), &'static str>(e),
        },
    decreases v,
{
    if depth > MAX_DEPTH {
        return Err("configuration depth limit");
    }
    if *count + 1 > MAX_VALUES {
        return Err("configuration value limit");
    }
    *count = *count + 1;
    match v {
        YamlValue::Null => charge_exec(bytes, 4),
        YamlValue::Bool(x) => charge_exec(bytes, if *x { 4 } else { 5 }),
        YamlValue::Integer(n) => charge_exec(bytes, integer_len(*n)),
        YamlValue::Float => Err("configuration requires exact integers; floats unsupported"),
        YamlValue::String(s) => string_size_exec(s.as_str(), bytes),
        YamlValue::Sequence(a) => {
            match charge_exec(bytes, 2) {
                Err(e) => return Err(e),
                Ok(()) => {},
            }
            let sep: usize = if a.len() == 0 { 0 } else { a.len() - 1 };
            match charge_exec(bytes, sep) {
                Err(e) => return Err(e),
                Ok(()) => {},
            }
            let mut i: usize = 0;
            assert(a@.skip(0) =~= a@);
            while i < a.len()
                invariant
                    i <= a@.len(),
                    depth <= MAX_DEPTH,
                    *count <= MAX_VALUES,
                    *bytes <= MAX_BYTES,
                    check_value(*v, depth as nat, *old(count) as nat, *old(bytes) as nat)
                        == check_items(a@.skip(i as int), (depth + 1) as nat, *count as nat, *bytes as nat),
                decreases a@.len() - i,
            {
                assert(a@.skip(i as int).drop_first() =~= a@.skip(i + 1));
                assert(a@.skip(i as int)[0] == a@[i as int]);
                proof {
                    assert(decreases_to!(*a => a@));
                    assert(decreases_to!(a@ => a@[i as int]));
                }
                match check_exec(&a[i], depth + 1, count, bytes) {
                    Err(e) => return Err(e),
                    Ok(()) => {},
                }
                i = i + 1;
            }
            Ok(())
        },
        YamlValue::Mapping(m) => {
            match charge_exec(bytes, 2) {
                Err(e) => return Err(e),
                Ok(()) => {},
            }
            let sep: usize = if m.len() == 0 { 0 } else { m.len() - 1 };
            match charge_exec(bytes, sep) {
                Err(e) => return Err(e),
                Ok(()) => {},
            }
            let mut i: usize = 0;
            assert(m@.skip(0) =~= m@);
            while i < m.len()
                invariant
                    i <= m@.len(),
                    depth <= MAX_DEPTH,
                    *count <= MAX_VALUES,
                    *bytes <= MAX_BYTES,
                    check_value(*v, depth as nat, *old(count) as nat, *old(bytes) as nat)
                        == check_entries(m@.skip(i as int), (depth + 1) as nat, *count as nat, *bytes as nat),
                decreases m@.len() - i,
            {
                assert(m@.skip(i as int).drop_first() =~= m@.skip(i + 1));
                assert(m@.skip(i as int)[0] == m@[i as int]);
                match &m[i].0 {
                    YamlValue::String(k) => {
                        match string_size_exec(k.as_str(), bytes) {
                            Err(e) => return Err(e),
                            Ok(()) => {},
                        }
                        match charge_exec(bytes, 1) {
                            Err(e) => return Err(e),
                            Ok(()) => {},
                        }
                        proof {
                            assert(decreases_to!(*m => m@));
                            assert(decreases_to!(m@ => m@[i as int]));
                            assert(decreases_to!(m@[i as int] => m@[i as int].1));
                        }
                        match check_exec(&m[i].1, depth + 1, count, bytes) {
                            Err(e) => return Err(e),
                            Ok(()) => {},
                        }
                    },
                    _ => return Err("configuration keys must be strings"),
                }
                i = i + 1;
            }
            Ok(())
        },
        YamlValue::Tagged => Err("configuration YAML tags unsupported"),
    }
}

/// Index sequence as integers.
pub open spec fn ints(s: Seq<usize>) -> Seq<int> {
    s.map_values(|x: usize| x as int)
}

/// Inserting before the first later key is inserting at that position.
proof fn lemma_insert_index_at(m: Seq<(YamlValue, YamlValue)>, order: Seq<int>, j: int, p: int)
    requires
        0 <= p <= order.len(),
        forall|q: int| 0 <= q < p ==> !key_before(m, j, #[trigger] order[q]),
        p < order.len() ==> key_before(m, j, order[p]),
    ensures
        insert_index(m, order, j) == order.take(p) + seq![j] + order.skip(p),
    decreases order.len(),
{
    if order.len() == 0 {
        assert(order.take(p) + seq![j] + order.skip(p) =~= seq![j]);
    } else if p == 0 {
        assert(order.take(p) + seq![j] + order.skip(p) =~= seq![j] + order);
    } else {
        assert(!key_before(m, j, order[0]));
        assert forall|q: int| 0 <= q < p - 1 implies !key_before(m, j, #[trigger] order.drop_first()[q]) by {
            assert(order.drop_first()[q] == order[q + 1]);
        }
        lemma_insert_index_at(m, order.drop_first(), j, p - 1);
        assert(order.take(p) + seq![j] + order.skip(p) =~= seq![order[0]] + (order.drop_first().take(p - 1) + seq![j] + order.drop_first().skip(p - 1)));
    }
}

/// The UTF-8 bytes of a string key, empty for any other key.
fn key_slice(k: &YamlValue) -> (b: &[u8])
    ensures
        b@ == key_bytes(key_chars(*k)),
{
    broadcast use vstd::utf8::group_utf8_lib;
    match k {
        YamlValue::String(s) => s.as_str().as_bytes(),
        _ => {
            let e: &[u8] = &[];
            assert(key_bytes(Seq::<char>::empty()) =~= Seq::<u8>::empty()) by {
                reveal_with_fuel(vstd::utf8::encode_utf8, 2);
            }
            e
        },
    }
}

/// Entry indices in key order (stable insertion order).
fn key_order_exec(m: &Vec<(YamlValue, YamlValue)>) -> (order: Vec<usize>)
    ensures
        ints(order@) == key_order(m@, m@.len()),
        forall|q: int| 0 <= q < order@.len() ==> #[trigger] order@[q] < m@.len(),
{
    let mut order: Vec<usize> = Vec::new();
    let mut j: usize = 0;
    while j < m.len()
        invariant
            j <= m@.len(),
            ints(order@) == key_order(m@, j as nat),
            order@.len() == j,
            forall|q: int| 0 <= q < order@.len() ==> #[trigger] order@[q] < j,
        decreases m@.len() - j,
    {
        let kj = key_slice(&m[j].0);
        let mut p: usize = 0;
        while p < order.len() && !bytes_less(kj, key_slice(&m[order[p]].0))
            invariant
                p <= order@.len(),
                j < m@.len(),
                kj@ == key_bytes(key_chars(m@[j as int].0)),
                forall|q: int| 0 <= q < order@.len() ==> #[trigger] order@[q] < j,
                forall|q: int| 0 <= q < p ==> !key_before(m@, j as int, #[trigger] ints(order@)[q]),
            decreases order@.len() - p,
        {
            p = p + 1;
        }
        proof {
            lemma_insert_index_at(m@, ints(order@), j as int, p as int);
            assert(key_order(m@, (j + 1) as nat) == insert_index(m@, key_order(m@, j as nat), j as int));
        }
        let ghost before = order@;
        order.insert(p, j);
        proof {
            assert(ints(order@) =~= ints(before).take(p as int) + seq![j as int] + ints(before).skip(p as int));
            assert forall|q: int| 0 <= q < order@.len() implies #[trigger] order@[q] < j + 1 by {
                if q < p {
                    assert(order@[q] == before[q]);
                } else if q > p {
                    assert(order@[q] == before[q - 1]);
                }
            }
        }
        j = j + 1;
    }
    order
}

/// A lowercase hexadecimal digit.
fn hex_char_exec(d: u32) -> (c: char)
    requires
        d < 16,
    ensures
        c == hex_char(d as nat),
{
    if d == 0 { '0' } else if d == 1 { '1' } else if d == 2 { '2' } else if d == 3 { '3' }
    else if d == 4 { '4' } else if d == 5 { '5' } else if d == 6 { '6' } else if d == 7 { '7' }
    else if d == 8 { '8' } else if d == 9 { '9' } else if d == 10 { 'a' } else if d == 11 { 'b' }
    else if d == 12 { 'c' } else if d == 13 { 'd' } else if d == 14 { 'e' } else { 'f' }
}

/// A lowercase hexadecimal digit of a nibble.
pub fn hex_digit(d: u8) -> (c: char)
    requires
        d < 16,
    ensures
        c == hex_char(d as nat),
{
    hex_char_exec(d as u32)
}

/// Append the JSON text of one string character.
fn push_escaped(out: &mut Vec<char>, c: char)
    ensures
        final(out)@ == old(out)@ + escape_char(c),
{
    if c == '"' {
        out.push('\\');
        out.push('"');
    } else if c == '\\' {
        out.push('\\');
        out.push('\\');
    } else if c == '\n' {
        out.push('\\');
        out.push('n');
    } else if c == '\r' {
        out.push('\\');
        out.push('r');
    } else if c == '\t' {
        out.push('\\');
        out.push('t');
    } else if c == '\u{8}' {
        out.push('\\');
        out.push('b');
    } else if c == '\u{c}' {
        out.push('\\');
        out.push('f');
    } else if (c as u32) <= 0x1f {
        let u = c as u32;
        out.push('\\');
        out.push('u');
        out.push('0');
        out.push('0');
        out.push(hex_char_exec(u / 16));
        out.push(hex_char_exec(u % 16));
    } else {
        out.push(c);
    }
    assert(final(out)@ =~= old(out)@ + escape_char(c));
}

/// Append a quoted JSON string.
pub fn push_quoted(out: &mut Vec<char>, s: &str)
    ensures
        final(out)@ == old(out)@ + quote(s@),
{
    let chars = chars_of(s);
    out.push('"');
    let ghost start = out@;
    let mut i: usize = 0;
    while i < chars.len()
        invariant
            i <= chars@.len(),
            chars@ == s@,
            out@ == start + escape_all(s@.take(i as int)),
        decreases chars@.len() - i,
    {
        proof {
            assert(s@.take(i + 1).drop_last() =~= s@.take(i as int));
        }
        push_escaped(out, chars[i]);
        i = i + 1;
        assert(out@ =~= start + escape_all(s@.take(i as int)));
    }
    out.push('"');
    assert(s@.take(i as int) =~= s@);
    assert(final(out)@ =~= old(out)@ + quote(s@));
}

/// Append the canonical JSON text of a value.
#[verifier::loop_isolation(false)]
fn emit(v: &YamlValue, out: &mut Vec<char>)
    ensures
        final(out)@ == old(out)@ + json_text(*v),
    decreases v,
{
    match v {
        YamlValue::Null => {
            out.push('n');
            out.push('u');
            out.push('l');
            out.push('l');
            proof {
                reveal_strlit("null");
            }
            assert(out@ =~= old(out)@ + json_text(*v));
        },
        YamlValue::Bool(x) => {
            if *x {
                out.push('t');
                out.push('r');
                out.push('u');
                out.push('e');
                proof {
                    reveal_strlit("true");
                }
            } else {
                out.push('f');
                out.push('a');
                out.push('l');
                out.push('s');
                out.push('e');
                proof {
                    reveal_strlit("false");
                }
            }
            assert(out@ =~= old(out)@ + json_text(*v));
        },
        YamlValue::Integer(n) => push_integer(out, *n),
        YamlValue::String(s) => push_quoted(out, s.as_str()),
        YamlValue::Sequence(a) => {
            out.push('[');
            let ghost start = out@;
            let mut i: usize = 0;
            while i < a.len()
                invariant
                    i <= a@.len(),
                    out@ == start + join_items(a@.take(i as int)),
                decreases a@.len() - i,
            {
                proof {
                    assert(a@.take(i + 1).drop_last() =~= a@.take(i as int));
                    assert(decreases_to!(*a => a@));
                    assert(decreases_to!(a@ => a@[i as int]));
                }
                if i > 0 {
                    out.push(',');
                }
                emit(&a[i], out);
                i = i + 1;
                assert(out@ =~= start + join_items(a@.take(i as int)));
            }
            out.push(']');
            assert(a@.take(i as int) =~= a@);
            assert(out@ =~= old(out)@ + json_text(*v));
        },
        YamlValue::Mapping(m) => {
            let order = key_order_exec(m);
            out.push('{');
            let ghost start = out@;
            let mut p: usize = 0;
            while p < order.len()
                invariant
                    p <= order@.len(),
                    ints(order@) == key_order(m@, m@.len()),
                    forall|q: int| 0 <= q < order@.len() ==> #[trigger] order@[q] < m@.len(),
                    out@ == start + join_entries(m@, ints(order@).take(p as int)),
                decreases order@.len() - p,
            {
                let j = order[p];
                proof {
                    assert(ints(order@).take(p + 1).drop_last() =~= ints(order@).take(p as int));
                    assert(ints(order@).take(p + 1).last() == j as int);
                    assert(decreases_to!(*m => m@));
                    assert(decreases_to!(m@ => m@[j as int]));
                    assert(decreases_to!(m@[j as int] => m@[j as int].1));
                }
                if p > 0 {
                    out.push(',');
                }
                let ghost mid = out@;
                match &m[j].0 {
                    YamlValue::String(k) => push_quoted(out, k.as_str()),
                    _ => {
                        out.push('"');
                        out.push('"');
                        assert(quote(Seq::<char>::empty()) =~= seq!['"', '"']);
                    },
                }
                out.push(':');
                emit(&m[j].1, out);
                proof {
                    assert(out@ =~= mid + (quote(key_chars(m@[j as int].0)) + seq![':'] + json_text(m@[j as int].1)));
                    assert(entry_text(m@, j as int) == quote(key_chars(m@[j as int].0)) + seq![':'] + json_text(m@[j as int].1));
                }
                p = p + 1;
                assert(out@ =~= start + join_entries(m@, ints(order@).take(p as int)));
            }
            out.push('}');
            assert(ints(order@).take(p as int) =~= ints(order@));
            assert(out@ =~= old(out)@ + json_text(*v));
        },
        _ => {
            assert(out@ =~= old(out)@ + json_text(*v));
        },
    }
}

/// Canonical object configuration. Floats, YAML tags and non-string keys are
/// unsupported; integers keep their exact value.
#[derive(Debug, Clone, PartialEq, Eq)]
pub struct ComponentConfiguration {
    canonical: String,
}

impl View for ComponentConfiguration {
    type V = Seq<char>;

    closed spec fn view(&self) -> Seq<char> {
        self.canonical@
    }
}

impl ComponentConfiguration {
    /// Validate a YAML value and keep its canonical compact JSON text.
    pub fn from_value(value: &YamlValue) -> (r: Result<ComponentConfiguration, &'static str>)
        ensures
            match configuration_decode(*value) {
                Ok(text) => r matches Ok(c) && c@ == text,
                Err(e) => r == Err::<ComponentConfiguration, &'static str>(e),
            },
    {
        match value {
            YamlValue::Mapping(_) => {},
            _ => return Err("configuration must be an object"),
        }
        let mut count: usize = 0;
        let mut bytes: usize = 0;
        match check_exec(value, 0, &mut count, &mut bytes) {
            Err(e) => return Err(e),
            Ok(()) => {},
        }
        let mut out: Vec<char> = Vec::new();
        emit(value, &mut out);
        assert(out@ =~= json_text(*value));
        Ok(ComponentConfiguration { canonical: crate::text::string_from_chars(&out) })
    }

    /// Compact key-sorted JSON, arrays ordered; immutable and fully validated.
    pub fn canonical_json(&self) -> (s: &str)
        ensures
            s@ == self@,
    {
        self.canonical.as_str()
    }
}

impl Default for ComponentConfiguration {
    /// The empty object.
    fn default() -> (c: ComponentConfiguration)
        ensures
            c@ == seq!['{', '}'],
    {
        let mut out: Vec<char> = Vec::new();
        out.push('{');
        out.push('}');
        ComponentConfiguration { canonical: crate::text::string_from_chars(&out) }
    }
}

} // verus!
