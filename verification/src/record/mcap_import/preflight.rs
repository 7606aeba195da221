//! Allocation-free length/shape validation of MCAP record bodies, before any
//! field is materialized.
use crate::record::error::RecordError;
use crate::record::mcap_import::limits::{check, import_limits_valid, ImportLimitsView, McapImportLimits};
use crate::text::utf8_valid;
use vstd::bytes::{spec_u32_from_le_bytes, spec_u64_from_le_bytes, u32_from_le_bytes, u64_from_le_bytes};
use vstd::prelude::*;
use vstd::slice::slice_subrange;

verus! {

/// The error for a field that extends past its record.
pub open spec fn past_end() -> RecordError {
    RecordError::Mcap("field extends past record")
}

/// Little-endian `u32` at a byte position.
pub open spec fn le_u32_at(d: Seq<u8>, p: int) -> u32 {
    spec_u32_from_le_bytes(d.subrange(p, p + 4))
}

/// Little-endian `u64` at a byte position.
pub open spec fn le_u64_at(d: Seq<u8>, p: int) -> u64 {
    spec_u64_from_le_bytes(d.subrange(p, p + 8))
}

/// A bounds-checked cursor over one record body; it never panics.
pub struct Cursor<'a> {
    data: &'a [u8],
    pos: usize,
}

impl<'a> View for Cursor<'a> {
    type V = (Seq<u8>, int);

    closed spec fn view(&self) -> (Seq<u8>, int) {
        (self.data@, self.pos as int)
    }
}

/// A position lies within the cursor's bytes.
pub open spec fn cursor_wf(c: (Seq<u8>, int)) -> bool {
    0 <= c.1 <= c.0.len()
}

/// Take `n` bytes at `p`: the new position, or the past-end error.
pub open spec fn s_take(d: Seq<u8>, p: int, n: int) -> Result<int, RecordError> {
    if p + n <= d.len() {
        Ok(p + n)
    } else {
        Err(past_end())
    }
}

/// A `u32`-length-prefixed UTF-8 string at `p`, bounded by `max` bytes.
pub open spec fn s_string(d: Seq<u8>, p: int, max: usize) -> Result<int, RecordError> {
    if p + 4 > d.len() {
        Err(past_end())
    } else {
        let n = le_u32_at(d, p) as int;
        if n > max {
            Err(RecordError::ImportLimit { kind: "string bytes", limit: max as u64 })
        } else if p + 4 + n > d.len() {
            Err(past_end())
        } else if !vstd::utf8::valid_utf8(d.subrange(p + 4, p + 4 + n)) {
            Err(RecordError::Mcap("invalid UTF-8"))
        } else {
            Ok(p + 4 + n)
        }
    }
}

/// The items of a map/array body from position `p`: fixed-width items when
/// `width > 0`, otherwise string key/value pairs. Returns the number of items
/// counted so far plus those from `p`.
pub open spec fn s_items(inner: Seq<u8>, p: int, l: ImportLimitsView, width: usize, count: nat) -> Result<nat, RecordError>
    decreases inner.len() - p,
{
    if p >= inner.len() || p < 0 {
        Ok(count)
    } else if count + 1 > l.entries {
        Err(RecordError::ImportLimit { kind: "map/array entries", limit: l.entries as u64 })
    } else if width > 0 {
        match s_take(inner, p, width as int) {
            Err(e) => Err(e),
            Ok(q) => s_items(inner, q, l, width, count + 1),
        }
    } else {
        match s_string(inner, p, l.string_bytes) {
            Err(e) => Err(e),
            Ok(q) => match s_string(inner, q, l.string_bytes) {
                Err(e) => Err(e),
                Ok(r) => s_items(inner, r, l, width, count + 1),
            },
        }
    }
}

/// A `u32`-byte-length map/array at `p`: the new position and item count.
pub open spec fn s_map(d: Seq<u8>, p: int, l: ImportLimitsView, width: usize) -> Result<(int, nat), RecordError> {
    if p + 4 > d.len() {
        Err(past_end())
    } else {
        let n = le_u32_at(d, p) as int;
        if p + 4 + n > d.len() {
            Err(past_end())
        } else {
            match s_items(d.subrange(p + 4, p + 4 + n), 0, l, width, 0) {
                Err(e) => Err(e),
                Ok(c) => Ok((p + 4 + n, c)),
            }
        }
    }
}

/// One field of a record layout.
#[derive(Debug, Clone, Copy, PartialEq, Eq)]
pub enum Field {
    /// A fixed number of bytes.
    Fixed(usize),
    /// A length-prefixed UTF-8 string.
    Str,
    /// A `u32`-length-prefixed byte array.
    Bytes32,
    /// A `u64`-length-prefixed compressed chunk body, bounded by the record budget.
    Chunk64,
    /// A `u32`-byte-length map or array; zero width means string pairs.
    Table(usize),
    /// The remaining message payload, bounded by the message budget.
    Payload,
}

/// Validate one field at `p`: the new position and the number of map items.
pub open spec fn s_field(d: Seq<u8>, p: int, f: Field, l: ImportLimitsView) -> Result<(int, nat), RecordError> {
    match f {
        Field::Fixed(n) => match s_take(d, p, n as int) {
            Err(e) => Err(e),
            Ok(q) => Ok((q, 0)),
        },
        Field::Str => match s_string(d, p, l.string_bytes) {
            Err(e) => Err(e),
            Ok(q) => Ok((q, 0)),
        },
        Field::Bytes32 => if p + 4 > d.len() {
            Err(past_end())
        } else {
            match s_take(d, p + 4, le_u32_at(d, p) as int) {
                Err(e) => Err(e),
                Ok(q) => Ok((q, 0)),
            }
        },
        Field::Chunk64 => if p + 8 > d.len() {
            Err(past_end())
        } else if le_u64_at(d, p) > l.record_bytes {
            Err(RecordError::ImportLimit { kind: "compressed chunk bytes", limit: l.record_bytes as u64 })
        } else {
            match s_take(d, p + 8, le_u64_at(d, p) as int) {
                Err(e) => Err(e),
                Ok(q) => Ok((q, 0)),
            }
        },
        Field::Table(w) => s_map(d, p, l, w),
        Field::Payload => if d.len() - p > l.message_bytes {
            Err(RecordError::ImportLimit { kind: "message bytes", limit: l.message_bytes as u64 })
        } else {
            Ok((d.len() as int, 0))
        },
    }
}

/// Validate a sequence of fields from `p`, accumulating map item counts.
pub open spec fn s_fields(d: Seq<u8>, p: int, fs: Seq<Field>, l: ImportLimitsView, count: nat) -> Result<(int, nat), RecordError>
    decreases fs.len(),
{
    if fs.len() == 0 {
        Ok((p, count))
    } else {
        match s_field(d, p, fs[0], l) {
            Err(e) => Err(e),
            Ok((q, c)) => s_fields(d, q, fs.drop_first(), l, count + c),
        }
    }
}

/// The field layout of each supported record opcode.
pub open spec fn layout(op: u8) -> Option<Seq<Field>> {
    if op == 0x01 {
        Some(seq![Field::Str, Field::Str])
    } else if op == 0x02 {
        Some(seq![Field::Fixed(20)])
    } else if op == 0x03 {
        Some(seq![Field::Fixed(2), Field::Str, Field::Str, Field::Bytes32])
    } else if op == 0x04 {
        Some(seq![Field::Fixed(4), Field::Str, Field::Str, Field::Table(0)])
    } else if op == 0x05 {
        Some(seq![Field::Fixed(22), Field::Payload])
    } else if op == 0x06 {
        Some(seq![Field::Fixed(28), Field::Str, Field::Chunk64])
    } else if op == 0x07 {
        Some(seq![Field::Fixed(2), Field::Table(16)])
    } else if op == 0x08 {
        Some(seq![Field::Fixed(32), Field::Table(10), Field::Fixed(8), Field::Str, Field::Fixed(16)])
    } else if op == 0x0b {
        Some(seq![Field::Fixed(42), Field::Table(10)])
    } else if op == 0x0c {
        Some(seq![Field::Str, Field::Table(0)])
    } else if op == 0x0d {
        Some(seq![Field::Fixed(16), Field::Str])
    } else if op == 0x0e {
        Some(seq![Field::Fixed(17)])
    } else if op == 0x0f {
        Some(seq![Field::Fixed(4)])
    } else {
        None
    }
}

/// The validation result of a record body: its conservative storage charge
/// (body bytes, a 512-byte object allowance and 128 bytes per map item), or
/// the first failure.
pub open spec fn spec_validate(op: u8, d: Seq<u8>, l: ImportLimitsView) -> Result<u64, RecordError> {
    if d.len() > l.record_bytes {
        Err(RecordError::ImportLimit { kind: "record bytes", limit: l.record_bytes as u64 })
    } else {
        match layout(op) {
            None => Err(RecordError::UnsupportedMcapRecord(op)),
            Some(fs) => match s_fields(d, 0, fs, l, 0) {
                Err(e) => Err(e),
                Ok((p, c)) => if p != d.len() {
                    Err(RecordError::UnsupportedMcap("record extension fields are not supported"))
                } else {
                    Ok((d.len() + 512 + c * 128) as u64)
                },
            },
        }
    }
}

impl<'a> Cursor<'a> {
    /// A cursor at the start of `data`.
    pub fn new(data: &'a [u8]) -> (c: Self)
        ensures
            c@ == (data@, 0int),
    {
        Cursor { data, pos: 0 }
    }

    /// Bytes not yet taken.
    pub fn remaining(&self) -> (n: usize)
        requires
            cursor_wf(self@),
        ensures
            n == self@.0.len() - self@.1,
    {
        self.data.len() - self.pos
    }

    /// Take the next `size` bytes, or fail without moving.
    pub fn take(&mut self, size: usize) -> (r: Result<&'a [u8], RecordError>)
        requires
            cursor_wf(old(self)@),
        ensures
            cursor_wf(final(self)@),
            final(self)@.0 == old(self)@.0,
            s_take(old(self)@.0, old(self)@.1, size as int) matches Ok(q) ==> (r matches Ok(b)
                && b@ == old(self)@.0.subrange(old(self)@.1, q) && final(self)@.1 == q),
            s_take(old(self)@.0, old(self)@.1, size as int) matches Err(e) ==> r == Err::<&'a [u8], RecordError>(e)
                && final(self)@ == old(self)@,
    {
        if size > self.data.len() - self.pos {
            return Err(RecordError::Mcap("field extends past record"));
        }
        let end = self.pos + size;
        let out = slice_subrange(self.data, self.pos, end);
        self.pos = end;
        Ok(out)
    }

    /// Take a little-endian `u32`.
    pub fn u32(&mut self) -> (r: Result<usize, RecordError>)
        requires
            cursor_wf(old(self)@),
        ensures
            cursor_wf(final(self)@),
            final(self)@.0 == old(self)@.0,
            old(self)@.1 + 4 <= old(self)@.0.len() ==> r == Ok::<usize, RecordError>(le_u32_at(old(self)@.0, old(self)@.1) as usize)
                && final(self)@.1 == old(self)@.1 + 4,
            old(self)@.1 + 4 > old(self)@.0.len() ==> r == Err::<usize, RecordError>(past_end()) && final(self)@ == old(self)@,
    {
        let b = self.take(4)?;
        Ok(u32_from_le_bytes(b) as usize)
    }

    /// Take a little-endian `u64`.
    pub fn u64(&mut self) -> (r: Result<u64, RecordError>)
        requires
            cursor_wf(old(self)@),
        ensures
            cursor_wf(final(self)@),
            final(self)@.0 == old(self)@.0,
            old(self)@.1 + 8 <= old(self)@.0.len() ==> r == Ok::<u64, RecordError>(le_u64_at(old(self)@.0, old(self)@.1))
                && final(self)@.1 == old(self)@.1 + 8,
            old(self)@.1 + 8 > old(self)@.0.len() ==> r == Err::<u64, RecordError>(past_end()) && final(self)@ == old(self)@,
    {
        let b = self.take(8)?;
        Ok(u64_from_le_bytes(b))
    }

    /// Validate a length-prefixed UTF-8 string within the string budget.
    fn string(&mut self, limits: McapImportLimits) -> (r: Result<(), RecordError>)
        requires
            import_limits_valid(limits@),
            cursor_wf(old(self)@),
        ensures
            cursor_wf(final(self)@),
            final(self)@.0 == old(self)@.0,
            s_string(old(self)@.0, old(self)@.1, limits@.string_bytes) matches Ok(q) ==> r is Ok && final(self)@.1 == q,
            s_string(old(self)@.0, old(self)@.1, limits@.string_bytes) matches Err(e) ==> r == Err::<(), RecordError>(e),
    {
        let len = self.u32()?;
        check(len as u64, limits.string_bytes() as u64, "string bytes")?;
        let bytes = self.take(len)?;
        if !utf8_valid(bytes) {
            return Err(RecordError::Mcap("invalid UTF-8"));
        }
        Ok(())
    }

    /// Validate a `u32`-byte-length map/array, returning its item count.
    fn map(&mut self, limits: McapImportLimits, width: usize) -> (r: Result<usize, RecordError>)
        requires
            import_limits_valid(limits@),
            cursor_wf(old(self)@),
        ensures
            cursor_wf(final(self)@),
            final(self)@.0 == old(self)@.0,
            s_map(old(self)@.0, old(self)@.1, limits@, width) matches Ok((q, c)) ==> r == Ok::<usize, RecordError>(c as usize)
                && final(self)@.1 == q && c <= limits@.entries,
            s_map(old(self)@.0, old(self)@.1, limits@, width) matches Err(e) ==> r == Err::<usize, RecordError>(e),
            r matches Ok(k) ==> k <= limits@.entries,
    {
        let len = self.u32()?;
        let body = self.take(len)?;
        let mut inner = Cursor::new(body);
        let mut entries: usize = 0;
        let ghost d = body@;
        let ghost after = self@;
        let ghost whole = match s_items(d, 0, limits@, width, 0) {
            Err(e) => Err(e),
            Ok(c) => Ok((after.1, c)),
        };
        assert(s_map(old(self)@.0, old(self)@.1, limits@, width) == whole);
        while inner.remaining() > 0
            invariant
                s_map(old(self)@.0, old(self)@.1, limits@, width) == whole,
                whole == match s_items(d, 0, limits@, width, 0) {
                    Err(e) => Err(e),
                    Ok(c) => Ok((after.1, c)),
                },
                self@ == after,
                cursor_wf(self@),
                self@.0 == old(self)@.0,
                import_limits_valid(limits@),
                inner@.0 == d,
                cursor_wf(inner@),
                entries <= limits@.entries,
                s_items(d, 0, limits@, width, 0) == s_items(d, inner@.1, limits@, width, entries as nat),
            decreases d.len() - inner@.1,
        {
            if entries >= limits.entries() {
                return Err(RecordError::ImportLimit { kind: "map/array entries", limit: limits.entries() as u64 });
            }
            entries = entries + 1;
            if width > 0 {
                inner.take(width)?;
            } else {
                inner.string(limits)?;
                inner.string(limits)?;
            }
        }
        Ok(entries)
    }
}

/// The field layout of a supported opcode.
fn layout_of(op: u8) -> (r: Option<Vec<Field>>)
    ensures
        match layout(op) {
            None => r is None,
            Some(fs) => r matches Some(v) && v@ == fs,
        },
{
    let v = if op == 0x01 {
        vec![Field::Str, Field::Str]
    } else if op == 0x02 {
        vec![Field::Fixed(20)]
    } else if op == 0x03 {
        vec![Field::Fixed(2), Field::Str, Field::Str, Field::Bytes32]
    } else if op == 0x04 {
        vec![Field::Fixed(4), Field::Str, Field::Str, Field::Table(0)]
    } else if op == 0x05 {
        vec![Field::Fixed(22), Field::Payload]
    } else if op == 0x06 {
        vec![Field::Fixed(28), Field::Str, Field::Chunk64]
    } else if op == 0x07 {
        vec![Field::Fixed(2), Field::Table(16)]
    } else if op == 0x08 {
        vec![Field::Fixed(32), Field::Table(10), Field::Fixed(8), Field::Str, Field::Fixed(16)]
    } else if op == 0x0b {
        vec![Field::Fixed(42), Field::Table(10)]
    } else if op == 0x0c {
        vec![Field::Str, Field::Table(0)]
    } else if op == 0x0d {
        vec![Field::Fixed(16), Field::Str]
    } else if op == 0x0e {
        vec![Field::Fixed(17)]
    } else if op == 0x0f {
        vec![Field::Fixed(4)]
    } else {
        return None;
    };
    assert(v@ =~= layout(op).unwrap());
    Some(v)
}

/// Validate one record body against its opcode's layout and the budgets,
/// returning a conservative charge for strings, map nodes and definition objects.
pub fn validate(op: u8, data: &[u8], limits: McapImportLimits) -> (r: Result<u64, RecordError>)
    requires
        import_limits_valid(limits@),
    ensures
        r == spec_validate(op, data@, limits@),
{
    check(data.len() as u64, limits.record_bytes() as u64, "record bytes")?;
    let fields = match layout_of(op) {
        Some(v) => v,
        None => return Err(RecordError::UnsupportedMcapRecord(op)),
    };
    let ghost fs = fields@;
    assert(layout(op) == Some(fs));
    assert(s_fields(data@, 0, fs, limits@, 0) is Err ==> spec_validate(op, data@, limits@) == Err::<u64, RecordError>(s_fields(data@, 0, fs, limits@, 0)->Err_0));
    let mut c = Cursor::new(data);
    let mut entries: usize = 0;
    let mut i: usize = 0;
    assert(fs.skip(0) =~= fs);
    while i < fields.len()
        invariant
            import_limits_valid(limits@),
            layout(op) == Some(fs),
            fields@ == fs,
            c@.0 == data@,
            cursor_wf(c@),
            i <= fs.len(),
            entries <= i * 65_536,
            fs.len() <= 5,
            data@.len() <= limits@.record_bytes,
            s_fields(data@, 0, fs, limits@, 0) == s_fields(data@, c@.1, fs.skip(i as int), limits@, entries as nat),
        decreases fs.len() - i,
    {
        assert(fs.skip(i as int).drop_first() =~= fs.skip(i + 1));
        assert(fs.skip(i as int)[0] == fs[i as int]);
        assert(s_fields(data@, c@.1, fs.skip(i as int), limits@, entries as nat) == match s_field(data@, c@.1, fs[i as int], limits@) {
            Err(e) => Err(e),
            Ok((q, k)) => s_fields(data@, q, fs.skip(i + 1), limits@, (entries + k) as nat),
        });
        match fields[i] {
            Field::Fixed(n) => {
                c.take(n)?;
                assert(s_fields(data@, 0, fs, limits@, 0) == s_fields(data@, c@.1, fs.skip(i + 1), limits@, entries as nat));
            },
            Field::Str => {
                c.string(limits)?;
                assert(s_fields(data@, 0, fs, limits@, 0) == s_fields(data@, c@.1, fs.skip(i + 1), limits@, entries as nat));
            },
            Field::Bytes32 => {
                let ghost p0 = c@.1;
                let n = c.u32()?;
                assert(n as int == le_u32_at(data@, p0) as int);
                c.take(n)?;
                assert(s_fields(data@, 0, fs, limits@, 0) == s_fields(data@, c@.1, fs.skip(i + 1), limits@, entries as nat));
            },
            Field::Chunk64 => {
                let n = c.u64()?;
                check(n, limits.record_bytes() as u64, "compressed chunk bytes")?;
                c.take(n as usize)?;
                assert(s_fields(data@, 0, fs, limits@, 0) == s_fields(data@, c@.1, fs.skip(i + 1), limits@, entries as nat));
            },
            Field::Table(w) => {
                let k = c.map(limits, w)?;
                assert(entries + k <= (i + 1) * 65_536) by (nonlinear_arith)
                    requires entries <= i * 65_536, k <= 65_536;
                entries = entries + k;
            },
            Field::Payload => {
                let rest = c.remaining();
                check(rest as u64, limits.message_bytes() as u64, "message bytes")?;
                c.take(rest)?;
                assert(s_fields(data@, 0, fs, limits@, 0) == s_fields(data@, c@.1, fs.skip(i + 1), limits@, entries as nat));
            },
        }
        i = i + 1;
    }
    if c.remaining() != 0 {
        return Err(RecordError::UnsupportedMcap("record extension fields are not supported"));
    }
    Ok(data.len() as u64 + 512 + entries as u64 * 128)
}

} // verus!
