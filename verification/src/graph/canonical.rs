//! The canonical texts behind the identities say what they are built from:
//! quoted strings decode uniquely, so equal texts come from equal contents.
use crate::graph::assemble::{ComponentView, ConnectionView, DeploymentView, NodeView};
use crate::graph::model::{class_name, role_name, runtime_name};
use crate::graph::registry::sort_versions;
use crate::graph::configuration::{escape_all, escape_char, hex_char, quote};
use crate::graph::identity::{
    any_delay, binding_text, component_less, delay_text, component_text, connection_less, connection_text, declared_text,
    deployment_text, identity_version, join_commas, json_array, key, node_less, node_text, resolved_text, sort_by,
    BindingView,
};
use crate::graph::reorder::{indices, lemma_map_multiset, lemma_sort_by_indices};
use crate::text::{decimal_chars, digit_char};
use vstd::prelude::*;

verus! {

/// Equal texts after a common prefix are equal.
pub proof fn lemma_cancel_prefix(l: Seq<char>, r1: Seq<char>, r2: Seq<char>)
    requires
        l + r1 == l + r2,
    ensures
        r1 == r2,
{
    assert(r1 =~= (l + r1).skip(l.len() as int));
    assert(r2 =~= (l + r2).skip(l.len() as int));
}

/// Decimal digits are never commas, and a number of ten or more has at least two.
proof fn lemma_decimal_shape(n: nat)
    ensures
        decimal_chars(n).len() >= 1,
        n >= 10 ==> decimal_chars(n).len() >= 2,
        forall|i: int| 0 <= i < decimal_chars(n).len() ==> #[trigger] decimal_chars(n)[i] != ',',
    decreases n,
{
    if n >= 10 {
        lemma_decimal_shape(n / 10);
        let p = decimal_chars(n / 10);
        assert forall|i: int| 0 <= i < decimal_chars(n).len() implies #[trigger] decimal_chars(n)[i] != ',' by {
            if i < p.len() {
                assert(decimal_chars(n)[i] == p[i]);
            }
        }
    }
}

/// Distinct numbers have distinct decimal texts.
proof fn lemma_decimal_injective(a: nat, b: nat)
    requires
        decimal_chars(a) == decimal_chars(b),
    ensures
        a == b,
    decreases a,
{
    lemma_decimal_shape(a);
    lemma_decimal_shape(b);
    if a < 10 && b < 10 {
        assert(decimal_chars(a)[0] == digit_char(a));
        assert(decimal_chars(b)[0] == digit_char(b));
    } else if a >= 10 && b >= 10 {
        let da = decimal_chars(a);
        assert(da.drop_last() =~= decimal_chars(a / 10));
        assert(decimal_chars(b).drop_last() =~= decimal_chars(b / 10));
        assert(da.last() == digit_char(a % 10));
        assert(decimal_chars(b).last() == digit_char(b % 10));
        lemma_decimal_injective(a / 10, b / 10);
        assert(a == 10 * (a / 10) + a % 10);
        assert(b == 10 * (b / 10) + b % 10);
    }
}

/// A number's decimal text followed by a comma determines the number and what follows.
proof fn lemma_decimal_decode(a: nat, b: nat, r1: Seq<char>, r2: Seq<char>)
    requires
        decimal_chars(a) + (seq![','] + r1) == decimal_chars(b) + (seq![','] + r2),
    ensures
        a == b,
        r1 == r2,
{
    let da = decimal_chars(a);
    let db = decimal_chars(b);
    let t = da + (seq![','] + r1);
    lemma_decimal_shape(a);
    lemma_decimal_shape(b);
    if da.len() < db.len() {
        assert(t[da.len() as int] == ',');
        assert((db + (seq![','] + r2))[da.len() as int] == db[da.len() as int]);
    } else if db.len() < da.len() {
        assert((db + (seq![','] + r2))[db.len() as int] == ',');
        assert(t[db.len() as int] == da[db.len() as int]);
    } else {
        assert(da =~= t.take(da.len() as int));
        assert(db =~= (db + (seq![','] + r2)).take(db.len() as int));
        lemma_decimal_injective(a, b);
        lemma_cancel_prefix(da, seq![','] + r1, seq![','] + r2);
        lemma_cancel_prefix(seq![','], r1, r2);
    }
}

/// A delay's text followed by a comma determines the delay and what follows.
proof fn lemma_delay_decode(a: nat, b: nat, r1: Seq<char>, r2: Seq<char>)
    requires
        delay_text(a) + (seq![','] + r1) == delay_text(b) + (seq![','] + r2),
    ensures
        a == b,
        r1 == r2,
{
    let lead = seq!['{'] + key("initialization"@) + quote("require-seed"@) + seq![','] + key("ticks"@);
    let unit = key("unit"@) + quote("evaluation-ticks"@) + seq!['}'];
    if a == 0 && b == 0 {
    } else if a == 0 {
        assert((delay_text(a) + (seq![','] + r1))[0] == '"');
        assert((delay_text(b) + (seq![','] + r2))[0] == '{');
    } else if b == 0 {
        assert((delay_text(b) + (seq![','] + r2))[0] == '"');
        assert((delay_text(a) + (seq![','] + r1))[0] == '{');
    } else {
        assert(delay_text(a) + (seq![','] + r1) =~= lead + (decimal_chars(a) + (seq![','] + (unit + (seq![','] + r1)))));
        assert(delay_text(b) + (seq![','] + r2) =~= lead + (decimal_chars(b) + (seq![','] + (unit + (seq![','] + r2)))));
        lemma_cancel_prefix(
            lead,
            decimal_chars(a) + (seq![','] + (unit + (seq![','] + r1))),
            decimal_chars(b) + (seq![','] + (unit + (seq![','] + r2))),
        );
        lemma_decimal_decode(a, b, unit + (seq![','] + r1), unit + (seq![','] + r2));
        assert(unit + (seq![','] + r1) =~= (unit + seq![',']) + r1);
        assert(unit + (seq![','] + r2) =~= (unit + seq![',']) + r2);
        lemma_cancel_prefix(unit + seq![','], r1, r2);
    }
    if a == 0 && b == 0 {
        assert(delay_text(a) + (seq![','] + r1) =~= quote("instantaneous"@) + (seq![','] + r1));
        assert(delay_text(b) + (seq![','] + r2) =~= quote("instantaneous"@) + (seq![','] + r2));
        lemma_quote_decode("instantaneous"@, "instantaneous"@, seq![','] + r1, seq![','] + r2);
        lemma_cancel_prefix(seq![','], r1, r2);
    }
}

/// Escaping works character by character from the front.
proof fn lemma_escape_front(c: char, s: Seq<char>)
    ensures
        escape_all(seq![c] + s) == escape_char(c) + escape_all(s),
    decreases s.len(),
{
    let t = seq![c] + s;
    if s.len() == 0 {
        assert(t.drop_last() =~= Seq::<char>::empty());
        assert(t.last() == c);
        assert(escape_all(t.drop_last()) =~= Seq::<char>::empty());
        assert(escape_all(s) =~= Seq::<char>::empty());
        assert(escape_all(t) =~= escape_char(c) + escape_all(s));
    } else {
        assert(t.drop_last() =~= seq![c] + s.drop_last());
        assert(t.last() == s.last());
        lemma_escape_front(c, s.drop_last());
        assert(escape_all(t) =~= escape_char(c) + escape_all(s));
    }
}

/// Distinct hexadecimal digits have distinct characters.
proof fn lemma_hex_char_injective(x: nat, y: nat)
    requires
        x < 16,
        y < 16,
        hex_char(x) == hex_char(y),
    ensures
        x == y,
{
    reveal_with_fuel(crate::text::digit_char, 1);
}

/// The escape of a character is never a quotation mark at its start.
proof fn lemma_escape_start(c: char)
    ensures
        escape_char(c).len() > 0,
        escape_char(c)[0] != '"',
        escape_char(c)[0] == '\\' <==> (c == '"' || c == '\\' || (c as u32) <= 0x1f),
{
}

/// Escaped characters decode uniquely: an escape followed by any text
/// determines the character and the text.
proof fn lemma_escape_char_decode(a: char, b: char, r1: Seq<char>, r2: Seq<char>)
    requires
        escape_char(a) + r1 == escape_char(b) + r2,
    ensures
        a == b,
        r1 == r2,
{
    let ea = escape_char(a);
    let eb = escape_char(b);
    let t = ea + r1;
    lemma_escape_start(a);
    lemma_escape_start(b);
    assert(t[0] == ea[0]);
    assert((eb + r2)[0] == eb[0]);
    if ea[0] != '\\' {
        assert(ea =~= seq![a]);
        assert(eb =~= seq![b]);
    } else {
        assert(t[1] == ea[1]);
        assert((eb + r2)[1] == eb[1]);
        if (a as u32) <= 0x1f && a != '\n' && a != '\r' && a != '\t' && a != '\u{8}' && a != '\u{c}' {
            assert(ea[1] == 'u');
            assert(eb[1] == 'u');
            assert((b as u32) <= 0x1f && b != '\n' && b != '\r' && b != '\t' && b != '\u{8}' && b != '\u{c}'
                && b != '"' && b != '\\');
            assert(t[4] == ea[4] && t[5] == ea[5]);
            assert((eb + r2)[4] == eb[4] && (eb + r2)[5] == eb[5]);
            let xa = (a as u32) as nat;
            let xb = (b as u32) as nat;
            lemma_hex_char_injective(xa / 16, xb / 16);
            lemma_hex_char_injective(xa % 16, xb % 16);
            assert(xa == 16 * (xa / 16) + xa % 16);
            assert(xb == 16 * (xb / 16) + xb % 16);
            assert(xa == xb);
        }
    }
    assert(a == b);
    lemma_cancel_prefix(ea, r1, r2);
}

/// An escaped body followed by a closing quotation mark decodes uniquely.
proof fn lemma_escaped_decode(a: Seq<char>, b: Seq<char>, r1: Seq<char>, r2: Seq<char>)
    requires
        escape_all(a) + (seq!['"'] + r1) == escape_all(b) + (seq!['"'] + r2),
    ensures
        a == b,
        r1 == r2,
    decreases a.len(),
{
    if a.len() == 0 && b.len() == 0 {
        assert(escape_all(a) =~= Seq::<char>::empty());
        assert(escape_all(b) =~= Seq::<char>::empty());
        assert(seq!['"'] + r1 =~= seq!['"'] + r2);
        lemma_cancel_prefix(seq!['"'], r1, r2);
    } else if a.len() == 0 {
        assert(b =~= seq![b[0]] + b.drop_first());
        lemma_escape_front(b[0], b.drop_first());
        lemma_escape_start(b[0]);
        assert(escape_all(a) =~= Seq::<char>::empty());
        assert((escape_all(b) + (seq!['"'] + r2))[0] == escape_char(b[0])[0]);
    } else if b.len() == 0 {
        assert(a =~= seq![a[0]] + a.drop_first());
        lemma_escape_front(a[0], a.drop_first());
        lemma_escape_start(a[0]);
        assert(escape_all(b) =~= Seq::<char>::empty());
        assert((escape_all(a) + (seq!['"'] + r1))[0] == escape_char(a[0])[0]);
    } else {
        assert(a =~= seq![a[0]] + a.drop_first());
        assert(b =~= seq![b[0]] + b.drop_first());
        lemma_escape_front(a[0], a.drop_first());
        lemma_escape_front(b[0], b.drop_first());
        let ta = escape_all(a.drop_first()) + (seq!['"'] + r1);
        let tb = escape_all(b.drop_first()) + (seq!['"'] + r2);
        assert(escape_all(a) + (seq!['"'] + r1) =~= escape_char(a[0]) + ta);
        assert(escape_all(b) + (seq!['"'] + r2) =~= escape_char(b[0]) + tb);
        lemma_escape_char_decode(a[0], b[0], ta, tb);
        lemma_escaped_decode(a.drop_first(), b.drop_first(), r1, r2);
    }
}

/// A quoted string followed by any text determines the string and the text.
pub proof fn lemma_quote_decode(a: Seq<char>, b: Seq<char>, r1: Seq<char>, r2: Seq<char>)
    requires
        quote(a) + r1 == quote(b) + r2,
    ensures
        a == b,
        r1 == r2,
{
    assert(quote(a) + r1 =~= seq!['"'] + (escape_all(a) + (seq!['"'] + r1)));
    assert(quote(b) + r2 =~= seq!['"'] + (escape_all(b) + (seq!['"'] + r2)));
    lemma_cancel_prefix(seq!['"'], escape_all(a) + (seq!['"'] + r1), escape_all(b) + (seq!['"'] + r2));
    lemma_escaped_decode(a, b, r1, r2);
}

/// A node's text followed by any text determines the node and the text.
pub proof fn lemma_node_decode(a: NodeView, b: NodeView, r1: Seq<char>, r2: Seq<char>)
    requires
        node_text(a) + r1 == node_text(b) + r2,
    ensures
        a == b,
        r1 == r2,
{
    let l0 = seq!['{'] + key("name"@);
    let l1 = seq![','] + key("target"@);
    let close = seq!['}'];
    assert(node_text(a) + r1 =~= l0 + (quote(a.name) + (l1 + (quote(a.target) + (close + r1)))));
    assert(node_text(b) + r2 =~= l0 + (quote(b.name) + (l1 + (quote(b.target) + (close + r2)))));
    lemma_cancel_prefix(l0, quote(a.name) + (l1 + (quote(a.target) + (close + r1))), quote(b.name) + (l1 + (quote(
        b.target,
    ) + (close + r2))));
    lemma_quote_decode(a.name, b.name, l1 + (quote(a.target) + (close + r1)), l1 + (quote(b.target) + (close + r2)));
    lemma_cancel_prefix(l1, quote(a.target) + (close + r1), quote(b.target) + (close + r2));
    lemma_quote_decode(a.target, b.target, close + r1, close + r2);
    lemma_cancel_prefix(close, r1, r2);
}

/// One more `,"key":"value"` field after a prefix, regrouped to the right.
proof fn lemma_field_regroup(p: Seq<char>, k: Seq<char>, x: Seq<char>, r: Seq<char>)
    ensures
        (p + seq![','] + key(k) + quote(x)) + r == p + ((seq![','] + key(k)) + (quote(x) + r)),
{
    assert((p + seq![','] + key(k) + quote(x)) + r =~= p + ((seq![','] + key(k)) + (quote(x) + r)));
}

/// A field's key and quoted value followed by any text determine the value and the text.
proof fn lemma_field_decode(l: Seq<char>, x: Seq<char>, y: Seq<char>, r1: Seq<char>, r2: Seq<char>)
    requires
        l + (quote(x) + r1) == l + (quote(y) + r2),
    ensures
        x == y,
        r1 == r2,
{
    lemma_cancel_prefix(l, quote(x) + r1, quote(y) + r2);
    lemma_quote_decode(x, y, r1, r2);
}

/// The text of a binding followed by `r`, one field at a time.
spec fn binding_fields(b: BindingView, r: Seq<char>) -> Seq<char> {
    let a6 = seq!['}'] + r;
    let a5 = (seq![','] + key("wireId"@)) + (quote(b.wire_id) + a6);
    let a4 = (seq![','] + key("version"@)) + (quote(b.version) + a5);
    let a3 = (seq![','] + key("schemaId"@)) + (quote(b.schema_id) + a4);
    let a2 = (seq![','] + key("reference"@)) + (quote(b.reference) + a3);
    let a1 = (seq![','] + key("identifier"@)) + (quote(b.identifier) + a2);
    (seq!['{'] + key("codecId"@)) + (quote(b.codec_id) + a1)
}

proof fn lemma_binding_fields(b: BindingView, r: Seq<char>)
    ensures
        binding_text(b) + r == binding_fields(b, r),
{
    let p0 = seq!['{'] + key("codecId"@) + quote(b.codec_id);
    let p1 = p0 + seq![','] + key("identifier"@) + quote(b.identifier);
    let p2 = p1 + seq![','] + key("reference"@) + quote(b.reference);
    let p3 = p2 + seq![','] + key("schemaId"@) + quote(b.schema_id);
    let p4 = p3 + seq![','] + key("version"@) + quote(b.version);
    let p5 = p4 + seq![','] + key("wireId"@) + quote(b.wire_id);
    assert(binding_text(b) == p5 + seq!['}']);
    let a6 = seq!['}'] + r;
    assert((p5 + seq!['}']) + r =~= p5 + a6);
    lemma_field_regroup(p4, "wireId"@, b.wire_id, a6);
    let a5 = (seq![','] + key("wireId"@)) + (quote(b.wire_id) + a6);
    lemma_field_regroup(p3, "version"@, b.version, a5);
    let a4 = (seq![','] + key("version"@)) + (quote(b.version) + a5);
    lemma_field_regroup(p2, "schemaId"@, b.schema_id, a4);
    let a3 = (seq![','] + key("schemaId"@)) + (quote(b.schema_id) + a4);
    lemma_field_regroup(p1, "reference"@, b.reference, a3);
    let a2 = (seq![','] + key("reference"@)) + (quote(b.reference) + a3);
    lemma_field_regroup(p0, "identifier"@, b.identifier, a2);
    let a1 = (seq![','] + key("identifier"@)) + (quote(b.identifier) + a2);
    assert(p0 + a1 =~= (seq!['{'] + key("codecId"@)) + (quote(b.codec_id) + a1));
}

/// A binding's text followed by any text determines the binding and the text.
pub proof fn lemma_binding_decode(a: BindingView, b: BindingView, r1: Seq<char>, r2: Seq<char>)
    requires
        binding_text(a) + r1 == binding_text(b) + r2,
    ensures
        a == b,
        r1 == r2,
{
    lemma_binding_fields(a, r1);
    lemma_binding_fields(b, r2);
    let a6 = seq!['}'] + r1;
    let b6 = seq!['}'] + r2;
    let a5 = (seq![','] + key("wireId"@)) + (quote(a.wire_id) + a6);
    let b5 = (seq![','] + key("wireId"@)) + (quote(b.wire_id) + b6);
    let a4 = (seq![','] + key("version"@)) + (quote(a.version) + a5);
    let b4 = (seq![','] + key("version"@)) + (quote(b.version) + b5);
    let a3 = (seq![','] + key("schemaId"@)) + (quote(a.schema_id) + a4);
    let b3 = (seq![','] + key("schemaId"@)) + (quote(b.schema_id) + b4);
    let a2 = (seq![','] + key("reference"@)) + (quote(a.reference) + a3);
    let b2 = (seq![','] + key("reference"@)) + (quote(b.reference) + b3);
    let a1 = (seq![','] + key("identifier"@)) + (quote(a.identifier) + a2);
    let b1 = (seq![','] + key("identifier"@)) + (quote(b.identifier) + b2);
    lemma_field_decode(seq!['{'] + key("codecId"@), a.codec_id, b.codec_id, a1, b1);
    lemma_field_decode(seq![','] + key("identifier"@), a.identifier, b.identifier, a2, b2);
    lemma_field_decode(seq![','] + key("reference"@), a.reference, b.reference, a3, b3);
    lemma_field_decode(seq![','] + key("schemaId"@), a.schema_id, b.schema_id, a4, b4);
    lemma_field_decode(seq![','] + key("version"@), a.version, b.version, a5, b5);
    lemma_field_decode(seq![','] + key("wireId"@), a.wire_id, b.wire_id, a6, b6);
    lemma_cancel_prefix(seq!['}'], r1, r2);
}

/// The fields of a connection after its contract, from `"from":` on.
spec fn connection_ends(c: ConnectionView, r: Seq<char>) -> Seq<char> {
    key("from"@) + (quote(c.from) + ((seq![','] + key("to"@)) + (quote(c.to) + (seq!['}'] + r))))
}

/// The fields of a connection after its contract.
spec fn connection_rest(c: ConnectionView, delayed: bool, r: Seq<char>) -> Seq<char> {
    if delayed {
        key("delay"@) + (delay_text(c.delay) + (seq![','] + connection_ends(c, r)))
    } else {
        connection_ends(c, r)
    }
}

proof fn lemma_connection_shape(
    open: Seq<char>,
    qc: Seq<char>,
    mid: Seq<char>,
    kf: Seq<char>,
    qf: Seq<char>,
    kt: Seq<char>,
    qt: Seq<char>,
    r: Seq<char>,
)
    ensures
        open + qc + seq![','] + mid + kf + qf + seq![','] + kt + qt + seq!['}'] + r == open + (qc + (seq![','] + (mid + (
        kf + (qf + ((seq![','] + kt) + (qt + (seq!['}'] + r)))))))),
{
    assert(open + qc + seq![','] + mid + kf + qf + seq![','] + kt + qt + seq!['}'] + r =~= open + (qc + (seq![','] + (
    mid + (kf + (qf + ((seq![','] + kt) + (qt + (seq!['}'] + r)))))))));
}

proof fn lemma_delay_shape(kd: Seq<char>, dt: Seq<char>, x: Seq<char>)
    ensures
        (kd + dt + seq![',']) + x == kd + (dt + (seq![','] + x)),
{
    assert((kd + dt + seq![',']) + x =~= kd + (dt + (seq![','] + x)));
}

#[verifier::spinoff_prover]
proof fn lemma_connection_fields(c: ConnectionView, delayed: bool, r: Seq<char>)
    ensures
        connection_text(c, delayed) + r == (seq!['{'] + key("contract"@)) + (quote(c.contract) + (seq![',']
            + connection_rest(c, delayed, r))),
{
    let open = seq!['{'] + key("contract"@);
    let mid = if delayed {
        key("delay"@) + delay_text(c.delay) + seq![',']
    } else {
        Seq::<char>::empty()
    };
    assert(connection_text(c, delayed) == open + quote(c.contract) + seq![','] + mid + key("from"@) + quote(c.from)
        + seq![','] + key("to"@) + quote(c.to) + seq!['}']);
    lemma_connection_shape(open, quote(c.contract), mid, key("from"@), quote(c.from), key("to"@), quote(c.to), r);
    let ends = connection_ends(c, r);
    assert(key("from"@) + (quote(c.from) + ((seq![','] + key("to"@)) + (quote(c.to) + (seq!['}'] + r)))) == ends);
    if delayed {
        lemma_delay_shape(key("delay"@), delay_text(c.delay), ends);
    } else {
        assert(mid + ends =~= ends);
    }
}

proof fn lemma_connection_ends_decode(a: ConnectionView, b: ConnectionView, r1: Seq<char>, r2: Seq<char>)
    requires
        connection_ends(a, r1) == connection_ends(b, r2),
    ensures
        a.from == b.from,
        a.to == b.to,
        r1 == r2,
{
    let tail_a = (seq![','] + key("to"@)) + (quote(a.to) + (seq!['}'] + r1));
    let tail_b = (seq![','] + key("to"@)) + (quote(b.to) + (seq!['}'] + r2));
    lemma_field_decode(key("from"@), a.from, b.from, tail_a, tail_b);
    lemma_field_decode(seq![','] + key("to"@), a.to, b.to, seq!['}'] + r1, seq!['}'] + r2);
    lemma_cancel_prefix(seq!['}'], r1, r2);
}

/// A connection's text followed by any text determines whether delays are
/// written, the connection's producer, consumer and contract, its delay where
/// delays are written, and the text that follows.
pub proof fn lemma_connection_decode(
    a: ConnectionView,
    b: ConnectionView,
    fa: bool,
    fb: bool,
    r1: Seq<char>,
    r2: Seq<char>,
)
    requires
        connection_text(a, fa) + r1 == connection_text(b, fb) + r2,
    ensures
        fa == fb,
        a.contract == b.contract,
        a.from == b.from,
        a.to == b.to,
        fa ==> a.delay == b.delay,
        r1 == r2,
{
    lemma_connection_fields(a, fa, r1);
    lemma_connection_fields(b, fb, r2);
    let ra = connection_rest(a, fa, r1);
    let rb = connection_rest(b, fb, r2);
    lemma_field_decode(seq!['{'] + key("contract"@), a.contract, b.contract, seq![','] + ra, seq![','] + rb);
    lemma_cancel_prefix(seq![','], ra, rb);
    let ea = delay_text(a.delay) + (seq![','] + connection_ends(a, r1));
    let eb = delay_text(b.delay) + (seq![','] + connection_ends(b, r2));
    let fa_rest = (quote(a.from) + ((seq![','] + key("to"@)) + (quote(a.to) + (seq!['}'] + r1))));
    let fb_rest = (quote(b.from) + ((seq![','] + key("to"@)) + (quote(b.to) + (seq!['}'] + r2))));
    if fa && !fb {
        assert(key("delay"@) + ea =~= quote("delay"@) + (seq![':'] + ea));
        assert(connection_ends(b, r2) =~= quote("from"@) + (seq![':'] + fb_rest));
        lemma_quote_decode("delay"@, "from"@, seq![':'] + ea, seq![':'] + fb_rest);
        reveal_strlit("delay");
        reveal_strlit("from");
        assert("delay"@.len() != "from"@.len());
    } else if !fa && fb {
        assert(key("delay"@) + eb =~= quote("delay"@) + (seq![':'] + eb));
        assert(connection_ends(a, r1) =~= quote("from"@) + (seq![':'] + fa_rest));
        lemma_quote_decode("from"@, "delay"@, seq![':'] + fa_rest, seq![':'] + eb);
        reveal_strlit("delay");
        reveal_strlit("from");
        assert("delay"@.len() != "from"@.len());
    } else if fa {
        lemma_cancel_prefix(key("delay"@), ea, eb);
        lemma_delay_decode(a.delay, b.delay, connection_ends(a, r1), connection_ends(b, r2));
        lemma_connection_ends_decode(a, b, r1, r2);
    } else {
        lemma_connection_ends_decode(a, b, r1, r2);
    }
}

/// Joining with commas works item by item from the front.
proof fn lemma_join_front(x: Seq<char>, rest: Seq<Seq<char>>)
    ensures
        join_commas(seq![x] + rest) == if rest.len() == 0 {
            x
        } else {
            x + seq![','] + join_commas(rest)
        },
    decreases rest.len(),
{
    let t = seq![x] + rest;
    if rest.len() == 0 {
        assert(t.len() == 1 && t[0] == x);
        assert(join_commas(t) == x);
    } else if rest.len() == 1 {
        assert(t.drop_last() =~= seq![x]);
        assert(t.last() == rest[0]);
        assert(join_commas(seq![x]) == x);
        assert(join_commas(rest) == rest[0]);
        assert(join_commas(t) == join_commas(t.drop_last()) + seq![','] + t.last());
    } else {
        assert(t.drop_last() =~= seq![x] + rest.drop_last());
        assert(t.last() == rest.last());
        lemma_join_front(x, rest.drop_last());
        assert(join_commas(t) =~= x + seq![','] + join_commas(rest));
    }
}

/// Comma-joined texts of items that decode uniquely, none starting with a
/// closing bracket, and closed by a bracket, determine the items and what follows.
proof fn lemma_list_decode<T>(
    xs1: Seq<T>,
    xs2: Seq<T>,
    f: spec_fn(T) -> Seq<char>,
    ok: spec_fn(T) -> bool,
    r1: Seq<char>,
    r2: Seq<char>,
)
    requires
        forall|a: T, b: T, s1: Seq<char>, s2: Seq<char>|
            #![trigger f(a) + s1, f(b) + s2]
            ok(a) && ok(b) && f(a) + s1 == f(b) + s2 ==> a == b && s1 == s2,
        forall|i: int| 0 <= i < xs1.len() ==> ok(#[trigger] xs1[i]),
        forall|i: int| 0 <= i < xs2.len() ==> ok(#[trigger] xs2[i]),
        forall|a: T| #![trigger f(a)] f(a).len() > 0 && f(a)[0] != ']',
        join_commas(xs1.map_values(f)) + (seq![']'] + r1) == join_commas(xs2.map_values(f)) + (seq![']'] + r2),
    ensures
        xs1 == xs2,
        r1 == r2,
    decreases xs1.len(),
{
    let m1 = xs1.map_values(f);
    let m2 = xs2.map_values(f);
    if xs1.len() == 0 && xs2.len() == 0 {
        assert(join_commas(m1) =~= Seq::<char>::empty());
        assert(join_commas(m2) =~= Seq::<char>::empty());
        lemma_cancel_prefix(seq![']'], r1, r2);
        assert(xs1 =~= xs2);
    } else if xs1.len() == 0 {
        assert(m2 =~= seq![f(xs2[0])] + xs2.drop_first().map_values(f));
        lemma_join_front(f(xs2[0]), xs2.drop_first().map_values(f));
        assert(join_commas(m1) =~= Seq::<char>::empty());
        let t2 = join_commas(m2) + (seq![']'] + r2);
        assert(f(xs2[0]).len() > 0 && f(xs2[0])[0] != ']');
        assert(t2[0] == f(xs2[0])[0]);
        assert((join_commas(m1) + (seq![']'] + r1))[0] == ']');
    } else if xs2.len() == 0 {
        assert(m1 =~= seq![f(xs1[0])] + xs1.drop_first().map_values(f));
        lemma_join_front(f(xs1[0]), xs1.drop_first().map_values(f));
        assert(join_commas(m2) =~= Seq::<char>::empty());
        let t1 = join_commas(m1) + (seq![']'] + r1);
        assert(f(xs1[0]).len() > 0 && f(xs1[0])[0] != ']');
        assert(t1[0] == f(xs1[0])[0]);
        assert((join_commas(m2) + (seq![']'] + r2))[0] == ']');
    } else {
        let rest1 = xs1.drop_first();
        let rest2 = xs2.drop_first();
        let n1 = rest1.map_values(f);
        let n2 = rest2.map_values(f);
        assert(m1 =~= seq![f(xs1[0])] + n1);
        assert(m2 =~= seq![f(xs2[0])] + n2);
        lemma_join_front(f(xs1[0]), n1);
        lemma_join_front(f(xs2[0]), n2);
        let tail1 = if n1.len() == 0 {
            Seq::<char>::empty()
        } else {
            seq![','] + join_commas(n1)
        };
        let tail2 = if n2.len() == 0 {
            Seq::<char>::empty()
        } else {
            seq![','] + join_commas(n2)
        };
        let u1 = tail1 + (seq![']'] + r1);
        let u2 = tail2 + (seq![']'] + r2);
        assert(join_commas(m1) + (seq![']'] + r1) =~= f(xs1[0]) + u1);
        assert(join_commas(m2) + (seq![']'] + r2) =~= f(xs2[0]) + u2);
        assert(f(xs1[0]) + u1 == f(xs2[0]) + u2);
        assert(ok(xs1[0]) && ok(xs2[0]));
        assert(xs1[0] == xs2[0] && u1 == u2);
        if n1.len() == 0 && n2.len() == 0 {
            lemma_cancel_prefix(seq![']'], r1, r2);
        } else if n1.len() == 0 {
            assert(u1[0] == ']');
            assert(u2[0] == ',');
        } else if n2.len() == 0 {
            assert(u2[0] == ']');
            assert(u1[0] == ',');
        } else {
            assert(u1 =~= seq![','] + (join_commas(n1) + (seq![']'] + r1)));
            assert(u2 =~= seq![','] + (join_commas(n2) + (seq![']'] + r2)));
            lemma_cancel_prefix(seq![','], join_commas(n1) + (seq![']'] + r1), join_commas(n2) + (seq![']'] + r2));
            assert forall|i: int| 0 <= i < rest1.len() implies ok(#[trigger] rest1[i]) by {
                assert(rest1[i] == xs1[i + 1]);
            }
            assert forall|i: int| 0 <= i < rest2.len() implies ok(#[trigger] rest2[i]) by {
                assert(rest2[i] == xs2[i + 1]);
            }
            lemma_list_decode(rest1, rest2, f, ok, r1, r2);
        }
        assert(xs1 =~= seq![xs1[0]] + rest1);
        assert(xs2 =~= seq![xs2[0]] + rest2);
    }
}

/// What follows the binding list in a resolved identity text.
spec fn resolved_after(x: Seq<char>, v: Seq<char>) -> Seq<char> {
    seq![','] + key("deployment"@) + x + seq![','] + key("identityVersion"@) + quote(v) + seq!['}']
}

proof fn lemma_resolved_layout(x: Seq<char>, v: Seq<char>, j: Seq<char>)
    ensures
        seq!['{'] + key("contracts"@) + (seq!['['] + j + seq![']']) + seq![','] + key("deployment"@) + x + seq![',']
            + key("identityVersion"@) + quote(v) + seq!['}'] == (seq!['{'] + key("contracts"@) + seq!['[']) + (j + (
        seq![']'] + resolved_after(x, v))),
{
    assert(seq!['{'] + key("contracts"@) + (seq!['['] + j + seq![']']) + seq![','] + key("deployment"@) + x + seq![',']
        + key("identityVersion"@) + quote(v) + seq!['}'] =~= (seq!['{'] + key("contracts"@) + seq!['[']) + (j + (
    seq![']'] + resolved_after(x, v))));
}

/// Equal resolved identity texts come from equal binding lists: every field of
/// every binding, its schema identity included, is part of the hashed text, so
/// bindings that differ in any field give different resolved texts.
pub proof fn law_resolved_text_determines_bindings(
    d1: DeploymentView,
    bs1: Seq<BindingView>,
    d2: DeploymentView,
    bs2: Seq<BindingView>,
)
    requires
        resolved_text(d1, bs1) == resolved_text(d2, bs2),
    ensures
        bs1 == bs2,
{
    let f = |b: BindingView| binding_text(b);
    let ok = |b: BindingView| true;
    assert forall|i: int| 0 <= i < bs1.len() implies ok(#[trigger] bs1[i]) by {}
    assert forall|i: int| 0 <= i < bs2.len() implies ok(#[trigger] bs2[i]) by {}
    assert forall|a: BindingView, b: BindingView, s1: Seq<char>, s2: Seq<char>|
        #![trigger f(a) + s1, f(b) + s2]
        ok(a) && ok(b) && f(a) + s1 == f(b) + s2 implies a == b && s1 == s2 by {
        lemma_binding_decode(a, b, s1, s2);
    }
    assert forall|a: BindingView| #![trigger f(a)] f(a).len() > 0 && f(a)[0] != ']' by {
        assert(f(a)[0] == '{');
    }
    let lead = seq!['{'] + key("contracts"@) + seq!['['];
    let v1 = identity_version(d1, "resolved"@);
    let v2 = identity_version(d2, "resolved"@);
    let j1 = join_commas(bs1.map_values(f));
    let j2 = join_commas(bs2.map_values(f));
    lemma_resolved_layout(deployment_text(d1), v1, j1);
    lemma_resolved_layout(deployment_text(d2), v2, j2);
    let after1 = resolved_after(deployment_text(d1), v1);
    let after2 = resolved_after(deployment_text(d2), v2);
    assert(resolved_text(d1, bs1) == lead + (j1 + (seq![']'] + after1)));
    assert(resolved_text(d2, bs2) == lead + (j2 + (seq![']'] + after2)));
    lemma_cancel_prefix(lead, j1 + (seq![']'] + after1), j2 + (seq![']'] + after2));
    lemma_list_decode(bs1, bs2, f, ok, after1, after2);
}

/// The nodes of a deployment in canonical order.
pub open spec fn sorted_nodes(d: DeploymentView) -> Seq<NodeView> {
    sort_by(node_less(d.nodes), d.nodes.len()).map_values(|i: int| d.nodes[i])
}

/// Sorting keeps the nodes of a deployment.
proof fn lemma_sorted_nodes(d: DeploymentView)
    ensures
        sorted_nodes(d).to_multiset() == d.nodes.to_multiset(),
{
    let n = d.nodes.len();
    let order = sort_by(node_less(d.nodes), n);
    lemma_sort_by_indices(node_less(d.nodes), n);
    let pick = |i: int| d.nodes[i];
    lemma_map_multiset(order, indices(n), pick);
    assert(sorted_nodes(d) =~= order.map_values(pick));
    assert(indices(n).map_values(pick) =~= d.nodes);
}

/// A text wrapped as `{"deployment":x,"identityVersion":"v"}`, regrouped.
proof fn lemma_declared_layout(x: Seq<char>, v: Seq<char>)
    ensures
        seq!['{'] + key("deployment"@) + x + seq![','] + key("identityVersion"@) + quote(v) + seq!['}'] == (seq!['{']
            + key("deployment"@)) + x + (seq![','] + key("identityVersion"@) + quote(v) + seq!['}']),
{
    assert(seq!['{'] + key("deployment"@) + x + seq![','] + key("identityVersion"@) + quote(v) + seq!['}'] =~= (seq![
        '{',
    ] + key("deployment"@)) + x + (seq![','] + key("identityVersion"@) + quote(v) + seq!['}']));
}

/// The connections of a deployment in canonical order.
pub open spec fn sorted_connections(d: DeploymentView) -> Seq<ConnectionView> {
    sort_by(connection_less(d.connections), d.connections.len()).map_values(|i: int| d.connections[i])
}

/// Sorting keeps the connections of a deployment, and each sorted one is one
/// of them.
proof fn lemma_sorted_connections(d: DeploymentView)
    ensures
        sorted_connections(d).to_multiset() == d.connections.to_multiset(),
        sorted_connections(d).len() == d.connections.len(),
        forall|i: int|
            0 <= i < sorted_connections(d).len() ==> exists|k: int|
                0 <= k < d.connections.len() && #[trigger] sorted_connections(d)[i] == d.connections[k],
{
    let n = d.connections.len();
    let order = sort_by(connection_less(d.connections), n);
    lemma_sort_by_indices(connection_less(d.connections), n);
    let pick = |i: int| d.connections[i];
    lemma_map_multiset(order, indices(n), pick);
    assert(sorted_connections(d) =~= order.map_values(pick));
    assert(indices(n).map_values(pick) =~= d.connections);
    assert forall|i: int| 0 <= i < sorted_connections(d).len() implies exists|k: int|
        0 <= k < d.connections.len() && #[trigger] sorted_connections(d)[i] == d.connections[k] by {
        assert(sorted_connections(d)[i] == d.connections[order[i]]);
    }
}

/// The texts of connections, with or without delays.
spec fn connection_texts(xs: Seq<ConnectionView>, delayed: bool) -> Seq<Seq<char>> {
    xs.map_values(|c: ConnectionView| connection_text(c, delayed))
}

/// Comma-joined connection texts closed by a bracket, delays written or left
/// out alike on both sides, determine the connections and what follows, where
/// the delays left out are zero.
#[verifier::spinoff_prover]
proof fn lemma_connection_lists_same(
    xs1: Seq<ConnectionView>,
    xs2: Seq<ConnectionView>,
    fl: bool,
    r1: Seq<char>,
    r2: Seq<char>,
)
    requires
        join_commas(connection_texts(xs1, fl)) + (seq![']'] + r1) == join_commas(connection_texts(xs2, fl)) + (seq![']']
            + r2),
        forall|i: int| 0 <= i < xs1.len() ==> fl || #[trigger] xs1[i].delay == 0,
        forall|i: int| 0 <= i < xs2.len() ==> fl || #[trigger] xs2[i].delay == 0,
    ensures
        xs1 == xs2,
        r1 == r2,
{
    let f = |c: ConnectionView| connection_text(c, fl);
    let ok = |c: ConnectionView| fl || c.delay == 0;
    assert(connection_texts(xs1, fl) =~= xs1.map_values(f));
    assert(connection_texts(xs2, fl) =~= xs2.map_values(f));
    assert forall|i: int| 0 <= i < xs1.len() implies ok(#[trigger] xs1[i]) by {}
    assert forall|i: int| 0 <= i < xs2.len() implies ok(#[trigger] xs2[i]) by {}
    assert forall|a: ConnectionView, b: ConnectionView, s1: Seq<char>, s2: Seq<char>|
        #![trigger f(a) + s1, f(b) + s2]
        ok(a) && ok(b) && f(a) + s1 == f(b) + s2 implies a == b && s1 == s2 by {
        lemma_connection_decode(a, b, fl, fl, s1, s2);
    }
    assert forall|a: ConnectionView| #![trigger f(a)] f(a).len() > 0 && f(a)[0] != ']' by {
        assert(f(a)[0] == '{');
    }
    lemma_list_decode(xs1, xs2, f, ok, r1, r2);
}

/// The first text of a nonempty comma-joined list, then the rest.
proof fn lemma_join_first(t: Seq<Seq<char>>, r: Seq<char>)
    requires
        t.len() > 0,
    ensures
        join_commas(t) + r == t[0] + ((if t.len() == 1 {
            Seq::<char>::empty()
        } else {
            seq![','] + join_commas(t.drop_first())
        }) + r),
{
    assert(t =~= seq![t[0]] + t.drop_first());
    lemma_join_front(t[0], t.drop_first());
    let u = if t.len() == 1 {
        Seq::<char>::empty()
    } else {
        seq![','] + join_commas(t.drop_first())
    };
    assert(join_commas(t) + r =~= t[0] + (u + r));
}

/// Connection lists written with delays never read as lists written without.
#[verifier::spinoff_prover]
proof fn lemma_connection_lists_flag(
    xs1: Seq<ConnectionView>,
    xs2: Seq<ConnectionView>,
    r1: Seq<char>,
    r2: Seq<char>,
)
    requires
        xs1.len() > 0,
    ensures
        join_commas(connection_texts(xs1, true)) + (seq![']'] + r1) != join_commas(connection_texts(xs2, false)) + (seq![
            ']',
        ] + r2),
{
    if join_commas(connection_texts(xs1, true)) + (seq![']'] + r1) == join_commas(connection_texts(xs2, false)) + (seq![
        ']',
    ] + r2) {
        lemma_connection_lists_clash(xs1, xs2, r1, r2);
    }
}

proof fn lemma_connection_lists_clash(
    xs1: Seq<ConnectionView>,
    xs2: Seq<ConnectionView>,
    r1: Seq<char>,
    r2: Seq<char>,
)
    requires
        xs1.len() > 0,
        join_commas(connection_texts(xs1, true)) + (seq![']'] + r1) == join_commas(connection_texts(xs2, false)) + (seq![
            ']',
        ] + r2),
    ensures
        xs1.len() == 0,
{
    let t1 = connection_texts(xs1, true);
    let t2 = connection_texts(xs2, false);
    lemma_join_first(t1, seq![']'] + r1);
    assert(t1[0] == connection_text(xs1[0], true));
    assert(t1[0][0] == '{');
    if xs2.len() > 0 {
        lemma_join_first(t2, seq![']'] + r2);
        assert(t2[0] == connection_text(xs2[0], false));
        let u1 = (if t1.len() == 1 {
            Seq::<char>::empty()
        } else {
            seq![','] + join_commas(t1.drop_first())
        }) + (seq![']'] + r1);
        let u2 = (if t2.len() == 1 {
            Seq::<char>::empty()
        } else {
            seq![','] + join_commas(t2.drop_first())
        }) + (seq![']'] + r2);
        lemma_connection_decode(xs1[0], xs2[0], true, false, u1, u2);
    } else {
        assert(t2.len() == 0);
        assert(join_commas(t2) =~= Seq::<char>::empty());
        assert((join_commas(t1) + (seq![']'] + r1))[0] == t1[0][0]);
        assert((join_commas(t2) + (seq![']'] + r2))[0] == ']');
    }
}

/// What follows a deployment's name in its canonical text: the node list, the
/// profile, and then `r`.
spec fn after_name(d: DeploymentView, r: Seq<char>) -> Seq<char> {
    (seq![','] + key("nodes"@) + seq!['[']) + (join_commas(sorted_nodes(d).map_values(|n: NodeView| node_text(n))) + (
    seq![']'] + ((seq![','] + key("profile"@)) + (profile_text(d.profile) + (seq!['}'] + r)))))
}

/// The canonical text of an optional profile.
spec fn profile_text(p: Option<Seq<char>>) -> Seq<char> {
    match p {
        Some(p) => quote(p),
        None => "null"@,
    }
}

/// What precedes the connection list in a deployment's canonical text.
spec fn components_lead(d: DeploymentView) -> Seq<char> {
    let comps = sort_by(component_less(d.components), d.components.len()).map_values(
        |i: int| component_text(d.components[i]),
    );
    seq!['{'] + key("components"@) + json_array(comps) + seq![','] + key("connections"@) + seq!['[']
}

proof fn lemma_deployment_shape(
    cj: Seq<char>,
    jx: Seq<char>,
    qn: Seq<char>,
    jn: Seq<char>,
    pr: Seq<char>,
    r: Seq<char>,
)
    ensures
        seq!['{'] + key("components"@) + cj + seq![','] + key("connections"@) + (seq!['['] + jx + seq![']']) + seq![',']
            + key("name"@) + qn + seq![','] + key("nodes"@) + (seq!['['] + jn + seq![']']) + seq![','] + key("profile"@)
            + pr + seq!['}'] + r == (seq!['{'] + key("components"@) + cj + seq![','] + key("connections"@) + seq!['['])
            + (jx + (seq![']'] + ((seq![','] + key("name"@)) + (qn + ((seq![','] + key("nodes"@) + seq!['[']) + (jn + (
            seq![']'] + ((seq![','] + key("profile"@)) + (pr + (seq!['}'] + r)))))))))),
{
    assert(seq!['{'] + key("components"@) + cj + seq![','] + key("connections"@) + (seq!['['] + jx + seq![']']) + seq![
        ',',
    ] + key("name"@) + qn + seq![','] + key("nodes"@) + (seq!['['] + jn + seq![']']) + seq![','] + key("profile"@) + pr
        + seq!['}'] + r =~= (seq!['{'] + key("components"@) + cj + seq![','] + key("connections"@) + seq!['[']) + (jx + (
    seq![']'] + ((seq![','] + key("name"@)) + (qn + ((seq![','] + key("nodes"@) + seq!['[']) + (jn + (seq![']'] + ((
    seq![','] + key("profile"@)) + (pr + (seq!['}'] + r)))))))))));
}

/// A declared identity text, field by field up to the deployment's name.
#[verifier::spinoff_prover]
#[verifier::rlimit(30)]
proof fn lemma_declared_fields(d: DeploymentView)
    ensures
        declared_text(d) == (seq!['{'] + key("deployment"@)) + (components_lead(d) + (join_commas(
            connection_texts(sorted_connections(d), any_delay(d)),
        ) + (seq![']'] + ((seq![','] + key("name"@)) + (quote(d.name) + after_name(
            d,
            seq![','] + key("identityVersion"@) + quote(identity_version(d, "declared"@)) + seq!['}'],
        )))))),
{
    let v = identity_version(d, "declared"@);
    let open = seq!['{'] + key("deployment"@);
    let close = seq![','] + key("identityVersion"@) + quote(v) + seq!['}'];
    lemma_declared_layout(deployment_text(d), v);
    assert(open + deployment_text(d) + close =~= open + (deployment_text(d) + close));
    let comps = sort_by(component_less(d.components), d.components.len()).map_values(
        |i: int| component_text(d.components[i]),
    );
    let conns = sort_by(connection_less(d.connections), d.connections.len()).map_values(
        |i: int| connection_text(d.connections[i], any_delay(d)),
    );
    let nodes = sort_by(node_less(d.nodes), d.nodes.len()).map_values(|i: int| node_text(d.nodes[i]));
    assert(conns =~= connection_texts(sorted_connections(d), any_delay(d)));
    assert(nodes =~= sorted_nodes(d).map_values(|n: NodeView| node_text(n)));
    let jx = join_commas(conns);
    let jn = join_commas(nodes);
    assert(deployment_text(d) == seq!['{'] + key("components"@) + json_array(comps) + seq![','] + key("connections"@) + (
    seq!['['] + jx + seq![']']) + seq![','] + key("name"@) + quote(d.name) + seq![','] + key("nodes"@) + (seq!['['] + jn
        + seq![']']) + seq![','] + key("profile"@) + profile_text(d.profile) + seq!['}']);
    lemma_deployment_shape(json_array(comps), jx, quote(d.name), jn, profile_text(d.profile), close);
}

/// A profile's text followed by a closing brace determines the profile and
/// what follows.
proof fn lemma_profile_decode(a: Option<Seq<char>>, b: Option<Seq<char>>, r1: Seq<char>, r2: Seq<char>)
    requires
        profile_text(a) + (seq!['}'] + r1) == profile_text(b) + (seq!['}'] + r2),
    ensures
        a == b,
        r1 == r2,
{
    reveal_strlit("null");
    match (a, b) {
        (Some(x), Some(y)) => {
            lemma_quote_decode(x, y, seq!['}'] + r1, seq!['}'] + r2);
            lemma_cancel_prefix(seq!['}'], r1, r2);
        },
        (None, None) => {
            assert("null"@ + (seq!['}'] + r1) =~= ("null"@ + seq!['}']) + r1);
            assert("null"@ + (seq!['}'] + r2) =~= ("null"@ + seq!['}']) + r2);
            lemma_cancel_prefix("null"@ + seq!['}'], r1, r2);
        },
        (Some(x), None) => {
            assert((profile_text(a) + (seq!['}'] + r1))[0] == '"');
            assert((profile_text(b) + (seq!['}'] + r2))[0] == 'n');
        },
        (None, Some(y)) => {
            assert((profile_text(b) + (seq!['}'] + r2))[0] == '"');
            assert((profile_text(a) + (seq!['}'] + r1))[0] == 'n');
        },
    }
}

/// Equal declared identity texts of deployments with the same components
/// come from the same deployment up to order: the same name and profile, the
/// same nodes (names and targets), and the same connections (producer,
/// consumer, contract and delay).
#[verifier::spinoff_prover]
#[verifier::rlimit(30)]
pub proof fn law_declared_text_determines_deployment(d1: DeploymentView, d2: DeploymentView)
    requires
        d1.components == d2.components,
        declared_text(d1) == declared_text(d2),
    ensures
        d1.name == d2.name,
        d1.profile == d2.profile,
        d1.nodes.to_multiset() == d2.nodes.to_multiset(),
        d1.connections.to_multiset() == d2.connections.to_multiset(),
{
    lemma_declared_fields(d1);
    lemma_declared_fields(d2);
    let f1 = any_delay(d1);
    let f2 = any_delay(d2);
    let c1 = seq![','] + key("identityVersion"@) + quote(identity_version(d1, "declared"@)) + seq!['}'];
    let c2 = seq![','] + key("identityVersion"@) + quote(identity_version(d2, "declared"@)) + seq!['}'];
    let x1 = sorted_connections(d1);
    let x2 = sorted_connections(d2);
    let a1 = (seq![','] + key("name"@)) + (quote(d1.name) + after_name(d1, c1));
    let a2 = (seq![','] + key("name"@)) + (quote(d2.name) + after_name(d2, c2));
    let open = seq!['{'] + key("deployment"@);
    lemma_cancel_prefix(
        open,
        components_lead(d1) + (join_commas(connection_texts(x1, f1)) + (seq![']'] + a1)),
        components_lead(d2) + (join_commas(connection_texts(x2, f2)) + (seq![']'] + a2)),
    );
    assert(components_lead(d1) == components_lead(d2));
    lemma_cancel_prefix(
        components_lead(d1),
        join_commas(connection_texts(x1, f1)) + (seq![']'] + a1),
        join_commas(connection_texts(x2, f2)) + (seq![']'] + a2),
    );
    lemma_sorted_connections(d1);
    lemma_sorted_connections(d2);
    assert forall|i: int| 0 <= i < x1.len() implies f1 || #[trigger] x1[i].delay == 0 by {
        let k = choose|k: int| 0 <= k < d1.connections.len() && x1[i] == d1.connections[k];
    }
    assert forall|i: int| 0 <= i < x2.len() implies f2 || #[trigger] x2[i].delay == 0 by {
        let k = choose|k: int| 0 <= k < d2.connections.len() && x2[i] == d2.connections[k];
    }
    if f1 && !f2 {
        lemma_connection_lists_flag(x1, x2, a1, a2);
    } else if f2 && !f1 {
        lemma_connection_lists_flag(x2, x1, a2, a1);
    } else {
        lemma_connection_lists_same(x1, x2, f1, a1, a2);
    }
    lemma_field_decode(seq![','] + key("name"@), d1.name, d2.name, after_name(d1, c1), after_name(d2, c2));
    assert(identity_version(d1, "declared"@) == identity_version(d2, "declared"@));
    lemma_after_name_decode(d1, d2, c1);
}

/// What follows the name determines the nodes and the profile.
#[verifier::spinoff_prover]
proof fn lemma_after_name_decode(d1: DeploymentView, d2: DeploymentView, r: Seq<char>)
    requires
        after_name(d1, r) == after_name(d2, r),
    ensures
        d1.profile == d2.profile,
        d1.nodes.to_multiset() == d2.nodes.to_multiset(),
{
    let f = |n: NodeView| node_text(n);
    let ok = |n: NodeView| true;
    assert forall|i: int| 0 <= i < sorted_nodes(d1).len() implies ok(#[trigger] sorted_nodes(d1)[i]) by {}
    assert forall|i: int| 0 <= i < sorted_nodes(d2).len() implies ok(#[trigger] sorted_nodes(d2)[i]) by {}
    assert forall|a: NodeView, b: NodeView, s1: Seq<char>, s2: Seq<char>|
        #![trigger f(a) + s1, f(b) + s2]
        ok(a) && ok(b) && f(a) + s1 == f(b) + s2 implies a == b && s1 == s2 by {
        lemma_node_decode(a, b, s1, s2);
    }
    assert forall|a: NodeView| #![trigger f(a)] f(a).len() > 0 && f(a)[0] != ']' by {
        assert(f(a)[0] == '{');
    }
    let p1 = (seq![','] + key("profile"@)) + (profile_text(d1.profile) + (seq!['}'] + r));
    let p2 = (seq![','] + key("profile"@)) + (profile_text(d2.profile) + (seq!['}'] + r));
    let j1 = join_commas(sorted_nodes(d1).map_values(f));
    let j2 = join_commas(sorted_nodes(d2).map_values(f));
    lemma_cancel_prefix(seq![','] + key("nodes"@) + seq!['['], j1 + (seq![']'] + p1), j2 + (seq![']'] + p2));
    lemma_list_decode(sorted_nodes(d1), sorted_nodes(d2), f, ok, p1, p2);
    lemma_cancel_prefix(
        seq![','] + key("profile"@),
        profile_text(d1.profile) + (seq!['}'] + r),
        profile_text(d2.profile) + (seq!['}'] + r),
    );
    lemma_profile_decode(d1.profile, d2.profile, r, r);
    lemma_sorted_nodes(d1);
    lemma_sorted_nodes(d2);
}

/// One more `,"key":[...]` field after a prefix, regrouped to the right.
proof fn lemma_array_regroup(p: Seq<char>, k: Seq<char>, items: Seq<Seq<char>>, r: Seq<char>)
    ensures
        (p + seq![','] + key(k) + json_array(items)) + r == p + ((seq![','] + key(k) + seq!['[']) + (join_commas(items) + (
        seq![']'] + r))),
{
    assert((p + seq![','] + key(k) + json_array(items)) + r =~= p + ((seq![','] + key(k) + seq!['[']) + (join_commas(
        items,
    ) + (seq![']'] + r))));
}

/// The quoted texts of a component's contracts, in canonical order.
spec fn contract_texts(refs: Seq<Seq<char>>) -> Seq<Seq<char>> {
    sort_versions(refs).map_values(|s: Seq<char>| quote(s))
}

/// The text of a component after its configuration, field by field.
spec fn component_fields(c: ComponentView, r: Seq<char>) -> Seq<char> {
    let a8 = (seq![','] + key("runtime"@)) + (quote(runtime_name(c.runtime)) + (seq!['}'] + r));
    let a7 = (seq![','] + key("role"@)) + (quote(role_name(c.role)) + a8);
    let a6 = (seq![','] + key("requires"@) + seq!['[']) + (join_commas(contract_texts(c.requires)) + (seq![']'] + a7));
    let a5 = (seq![','] + key("provides"@) + seq!['[']) + (join_commas(contract_texts(c.provides)) + (seq![']'] + a6));
    let a4 = (seq![','] + key("node"@)) + (quote(c.node) + a5);
    let a3 = (seq![','] + key("name"@)) + (quote(c.name) + a4);
    (seq![','] + key("executionClass"@)) + (quote(class_name(c.class)) + a3)
}

#[verifier::spinoff_prover]
proof fn lemma_component_fields(c: ComponentView, r: Seq<char>)
    ensures
        component_text(c) + r == (seq!['{'] + key("configuration"@) + c.configuration) + component_fields(c, r),
{
    let p0 = seq!['{'] + key("configuration"@) + c.configuration;
    let p1 = p0 + seq![','] + key("executionClass"@) + quote(class_name(c.class));
    let p2 = p1 + seq![','] + key("name"@) + quote(c.name);
    let p3 = p2 + seq![','] + key("node"@) + quote(c.node);
    let p4 = p3 + seq![','] + key("provides"@) + json_array(contract_texts(c.provides));
    let p5 = p4 + seq![','] + key("requires"@) + json_array(contract_texts(c.requires));
    let p6 = p5 + seq![','] + key("role"@) + quote(role_name(c.role));
    let p7 = p6 + seq![','] + key("runtime"@) + quote(runtime_name(c.runtime));
    assert(component_text(c) == p7 + seq!['}']);
    let a9 = seq!['}'] + r;
    assert((p7 + seq!['}']) + r =~= p7 + a9);
    lemma_field_regroup(p6, "runtime"@, runtime_name(c.runtime), a9);
    let a8 = (seq![','] + key("runtime"@)) + (quote(runtime_name(c.runtime)) + a9);
    lemma_field_regroup(p5, "role"@, role_name(c.role), a8);
    let a7 = (seq![','] + key("role"@)) + (quote(role_name(c.role)) + a8);
    lemma_array_regroup(p4, "requires"@, contract_texts(c.requires), a7);
    let a6 = (seq![','] + key("requires"@) + seq!['[']) + (join_commas(contract_texts(c.requires)) + (seq![']'] + a7));
    lemma_array_regroup(p3, "provides"@, contract_texts(c.provides), a6);
    let a5 = (seq![','] + key("provides"@) + seq!['[']) + (join_commas(contract_texts(c.provides)) + (seq![']'] + a6));
    lemma_field_regroup(p2, "node"@, c.node, a5);
    let a4 = (seq![','] + key("node"@)) + (quote(c.node) + a5);
    lemma_field_regroup(p1, "name"@, c.name, a4);
    let a3 = (seq![','] + key("name"@)) + (quote(c.name) + a4);
    lemma_field_regroup(p0, "executionClass"@, class_name(c.class), a3);
}

/// Comma-joined quoted contract lists closed by a bracket determine the
/// canonical contract lists and what follows.
proof fn lemma_contracts_decode(p: Seq<Seq<char>>, q: Seq<Seq<char>>, r1: Seq<char>, r2: Seq<char>)
    requires
        join_commas(contract_texts(p)) + (seq![']'] + r1) == join_commas(contract_texts(q)) + (seq![']'] + r2),
    ensures
        sort_versions(p) == sort_versions(q),
        r1 == r2,
{
    let f = |s: Seq<char>| quote(s);
    let ok = |s: Seq<char>| true;
    let xs1 = sort_versions(p);
    let xs2 = sort_versions(q);
    assert forall|i: int| 0 <= i < xs1.len() implies ok(#[trigger] xs1[i]) by {}
    assert forall|i: int| 0 <= i < xs2.len() implies ok(#[trigger] xs2[i]) by {}
    assert forall|a: Seq<char>, b: Seq<char>, s1: Seq<char>, s2: Seq<char>|
        #![trigger f(a) + s1, f(b) + s2]
        ok(a) && ok(b) && f(a) + s1 == f(b) + s2 implies a == b && s1 == s2 by {
        lemma_quote_decode(a, b, s1, s2);
    }
    assert forall|a: Seq<char>| #![trigger f(a)] f(a).len() > 0 && f(a)[0] != ']' by {
        assert(f(a)[0] == '"');
    }
    lemma_list_decode(xs1, xs2, f, ok, r1, r2);
}

/// Distinct execution classes, roles and runtimes have distinct spellings.
proof fn lemma_names_distinct(a: ComponentView, b: ComponentView)
    ensures
        class_name(a.class) == class_name(b.class) ==> a.class == b.class,
        role_name(a.role) == role_name(b.role) ==> a.role == b.role,
        runtime_name(a.runtime) == runtime_name(b.runtime) ==> a.runtime == b.runtime,
{
    reveal_strlit("hard-real-time");
    reveal_strlit("deterministic");
    reveal_strlit("interactive");
    reveal_strlit("best-effort");
    reveal_strlit("batch-ai");
    reveal_strlit("normal");
    reveal_strlit("safety");
    reveal_strlit("actuator");
    reveal_strlit("rust");
    reveal_strlit("python");
    if class_name(a.class) == class_name(b.class) && a.class != b.class {
        assert(class_name(a.class)[0] == class_name(b.class)[0]);
        assert(class_name(a.class).len() == class_name(b.class).len());
        assert(class_name(a.class)[1] == class_name(b.class)[1]);
    }
    if role_name(a.role) == role_name(b.role) && a.role != b.role {
        assert(role_name(a.role)[0] == role_name(b.role)[0]);
    }
    if runtime_name(a.runtime) == runtime_name(b.runtime) && a.runtime != b.runtime {
        assert(runtime_name(a.runtime)[0] == runtime_name(b.runtime)[0]);
    }
}

/// Components with the same configuration and equal canonical texts have the
/// same name, node, execution class, role and runtime, and the same provided
/// and required contracts in canonical order.
#[verifier::spinoff_prover]
pub proof fn law_component_text_determines_component(a: ComponentView, b: ComponentView)
    requires
        a.configuration == b.configuration,
        component_text(a) == component_text(b),
    ensures
        a.name == b.name,
        a.node == b.node,
        a.class == b.class,
        a.role == b.role,
        a.runtime == b.runtime,
        sort_versions(a.provides) == sort_versions(b.provides),
        sort_versions(a.requires) == sort_versions(b.requires),
{
    let r = Seq::<char>::empty();
    lemma_component_fields(a, r);
    lemma_component_fields(b, r);
    assert(component_text(a) + r =~= component_text(a));
    assert(component_text(b) + r =~= component_text(b));
    let p0 = seq!['{'] + key("configuration"@) + a.configuration;
    lemma_cancel_prefix(p0, component_fields(a, r), component_fields(b, r));
    let x8 = (seq![','] + key("runtime"@)) + (quote(runtime_name(a.runtime)) + (seq!['}'] + r));
    let y8 = (seq![','] + key("runtime"@)) + (quote(runtime_name(b.runtime)) + (seq!['}'] + r));
    let x7 = (seq![','] + key("role"@)) + (quote(role_name(a.role)) + x8);
    let y7 = (seq![','] + key("role"@)) + (quote(role_name(b.role)) + y8);
    let x6 = (seq![','] + key("requires"@) + seq!['[']) + (join_commas(contract_texts(a.requires)) + (seq![']'] + x7));
    let y6 = (seq![','] + key("requires"@) + seq!['[']) + (join_commas(contract_texts(b.requires)) + (seq![']'] + y7));
    let x5 = (seq![','] + key("provides"@) + seq!['[']) + (join_commas(contract_texts(a.provides)) + (seq![']'] + x6));
    let y5 = (seq![','] + key("provides"@) + seq!['[']) + (join_commas(contract_texts(b.provides)) + (seq![']'] + y6));
    let x4 = (seq![','] + key("node"@)) + (quote(a.node) + x5);
    let y4 = (seq![','] + key("node"@)) + (quote(b.node) + y5);
    let x3 = (seq![','] + key("name"@)) + (quote(a.name) + x4);
    let y3 = (seq![','] + key("name"@)) + (quote(b.name) + y4);
    lemma_field_decode(seq![','] + key("executionClass"@), class_name(a.class), class_name(b.class), x3, y3);
    lemma_field_decode(seq![','] + key("name"@), a.name, b.name, x4, y4);
    lemma_field_decode(seq![','] + key("node"@), a.node, b.node, x5, y5);
    lemma_cancel_prefix(
        seq![','] + key("provides"@) + seq!['['],
        join_commas(contract_texts(a.provides)) + (seq![']'] + x6),
        join_commas(contract_texts(b.provides)) + (seq![']'] + y6),
    );
    lemma_contracts_decode(a.provides, b.provides, x6, y6);
    lemma_cancel_prefix(
        seq![','] + key("requires"@) + seq!['['],
        join_commas(contract_texts(a.requires)) + (seq![']'] + x7),
        join_commas(contract_texts(b.requires)) + (seq![']'] + y7),
    );
    lemma_contracts_decode(a.requires, b.requires, x7, y7);
    lemma_field_decode(seq![','] + key("role"@), role_name(a.role), role_name(b.role), x8, y8);
    lemma_field_decode(
        seq![','] + key("runtime"@),
        runtime_name(a.runtime),
        runtime_name(b.runtime),
        seq!['}'] + r,
        seq!['}'] + r,
    );
    lemma_names_distinct(a, b);
}

} // verus!
