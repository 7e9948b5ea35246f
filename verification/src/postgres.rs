//! The values that a result table shows, how a column's Postgres type decides
//! how its cells are read, how a cell is rendered, and how cells are ordered.
use crate::text::{
    append_str, chars_of, i128_to_decimal, signed_decimal,
};
use vstd::prelude::*;
use vstd::utf8::encode_utf8;

verus! {

/// One cell of a query result.
///
/// Floating-point values are held as the text that `Display` writes for
/// them, and a UUID as its 128-bit value.
#[derive(Debug, Clone)]
pub enum CellValue {
    Text(String),
    SmallInt(i16),
    MedInt(i32),
    BigInt(i64),
    SmallFloat(String),
    BigFloat(String),
    Uuid(u128),
    BigDecimal(String),
    Null,
    Unsupported,
}

/// How the cells of a column are read, decided by the column's type name.
#[derive(Debug, Clone, Copy, PartialEq, Eq, Structural)]
pub enum ColumnKind {
    Text,
    SmallInt,
    MedInt,
    BigInt,
    Real,
    Double,
    Numeric,
    Timestamp,
    Uuid,
    Other,
}

/// The kind of a column whose type name (upper case) is `t`.
pub open spec fn kind_of(t: Seq<char>) -> ColumnKind {
    if t == "TEXT"@ || t == "VARCHAR"@ || t == "NAME"@ || t == "CITEXT"@ || t == "BPCHAR"@ || t
        == "CHAR"@ {
        ColumnKind::Text
    } else if t == "SMALLINT"@ || t == "SMALLSERIAL"@ || t == "INT2"@ {
        ColumnKind::SmallInt
    } else if t == "INT"@ || t == "SERIAL"@ || t == "INT4"@ {
        ColumnKind::MedInt
    } else if t == "BIGINT"@ || t == "BIGSERIAL"@ || t == "INT8"@ {
        ColumnKind::BigInt
    } else if t == "REAL"@ || t == "FLOAT4"@ {
        ColumnKind::Real
    } else if t == "DOUBLE PRECISION"@ || t == "FLOAT8"@ {
        ColumnKind::Double
    } else if t == "NUMERIC"@ {
        ColumnKind::Numeric
    } else if t == "TIMESTAMPTZ"@ || t == "TIMESTAMP"@ || t == "DATE"@ || t == "TIME"@ {
        ColumnKind::Timestamp
    } else if t == "UUID"@ {
        ColumnKind::Uuid
    } else {
        ColumnKind::Other
    }
}

/// Whether two string slices hold the same characters.
pub fn str_equals(a: &str, b: &str) -> (r: bool)
    ensures
        r == (a@ == b@),
{
    let x = chars_of(a);
    let y = chars_of(b);
    if x.len() != y.len() {
        return false;
    }
    let n = x.len();
    let mut i: usize = 0;
    while i < n
        invariant
            n == x@.len() == y@.len(),
            x@ == a@,
            y@ == b@,
            i <= n,
            forall|k: int| 0 <= k < i ==> x@[k] == y@[k],
        decreases n - i,
    {
        if x[i] != y[i] {
            assert(x@[i as int] != y@[i as int]);
            return false;
        }
        i = i + 1;
    }
    assert(x@ =~= y@);
    true
}

fn equals_any(t: &str, names: &[&str]) -> (r: bool)
    ensures
        r == (exists|k: int| 0 <= k < names@.len() && t@ == (#[trigger] names@[k])@),
{
    let mut i: usize = 0;
    while i < names.len()
        invariant
            i <= names@.len(),
            forall|k: int| 0 <= k < i ==> t@ != (#[trigger] names@[k])@,
        decreases names@.len() - i,
    {
        if str_equals(t, names[i]) {
            return true;
        }
        i = i + 1;
    }
    false
}

/// The kind of a column whose type name (upper case) is `col_type`.
pub fn column_kind(col_type: &str) -> (k: ColumnKind)
    ensures
        k == kind_of(col_type@),
{
    let text = ["TEXT", "VARCHAR", "NAME", "CITEXT", "BPCHAR", "CHAR"];
    if equals_any(col_type, &text) {
        assert(col_type@ == text@[0]@ || col_type@ == text@[1]@ || col_type@ == text@[2]@
            || col_type@ == text@[3]@ || col_type@ == text@[4]@ || col_type@ == text@[5]@);
        return ColumnKind::Text;
    }
    assert(col_type@ != text@[0]@ && col_type@ != text@[1]@ && col_type@ != text@[2]@
        && col_type@ != text@[3]@ && col_type@ != text@[4]@ && col_type@ != text@[5]@);
    let small = ["SMALLINT", "SMALLSERIAL", "INT2"];
    if equals_any(col_type, &small) {
        assert(col_type@ == small@[0]@ || col_type@ == small@[1]@ || col_type@ == small@[2]@);
        return ColumnKind::SmallInt;
    }
    assert(col_type@ != small@[0]@ && col_type@ != small@[1]@ && col_type@ != small@[2]@);
    let med = ["INT", "SERIAL", "INT4"];
    if equals_any(col_type, &med) {
        assert(col_type@ == med@[0]@ || col_type@ == med@[1]@ || col_type@ == med@[2]@);
        return ColumnKind::MedInt;
    }
    assert(col_type@ != med@[0]@ && col_type@ != med@[1]@ && col_type@ != med@[2]@);
    let big = ["BIGINT", "BIGSERIAL", "INT8"];
    if equals_any(col_type, &big) {
        assert(col_type@ == big@[0]@ || col_type@ == big@[1]@ || col_type@ == big@[2]@);
        return ColumnKind::BigInt;
    }
    assert(col_type@ != big@[0]@ && col_type@ != big@[1]@ && col_type@ != big@[2]@);
    if str_equals(col_type, "REAL") || str_equals(col_type, "FLOAT4") {
        return ColumnKind::Real;
    }
    if str_equals(col_type, "DOUBLE PRECISION") || str_equals(col_type, "FLOAT8") {
        return ColumnKind::Double;
    }
    if str_equals(col_type, "NUMERIC") {
        return ColumnKind::Numeric;
    }
    let time = ["TIMESTAMPTZ", "TIMESTAMP", "DATE", "TIME"];
    if equals_any(col_type, &time) {
        assert(col_type@ == time@[0]@ || col_type@ == time@[1]@ || col_type@ == time@[2]@
            || col_type@ == time@[3]@);
        return ColumnKind::Timestamp;
    }
    assert(col_type@ != time@[0]@ && col_type@ != time@[1]@ && col_type@ != time@[2]@
        && col_type@ != time@[3]@);
    if str_equals(col_type, "UUID") {
        return ColumnKind::Uuid;
    }
    ColumnKind::Other
}

/// What reading a non-null cell gave, for the read that the column's kind
/// asks for: the text of a text column (and of a column of any other type
/// read as text), the integer of an integer column, the `Display` text of a
/// floating-point value or of a `NUMERIC`, the Unix seconds and nanoseconds
/// of a timestamp, the value of a UUID; or `Failed` when the read failed.
#[derive(Debug, Clone)]
pub enum Decoded {
    Failed,
    Text(String),
    Int2(i16),
    Int4(i32),
    Int8(i64),
    Float4(String),
    Float8(String),
    Numeric(String),
    Timestamp(i64, u32),
    Uuid(u128),
}

/// What `chrono` writes for the UTC instant `secs` seconds and `nanos`
/// nanoseconds after the Unix epoch in RFC 3339 form, or `None` where
/// `DateTime::from_timestamp` has no such instant.
pub uninterp spec fn rfc3339_text(secs: i64, nanos: u32) -> Option<Seq<char>>;

/// The UTC instant given by Unix seconds and nanoseconds in RFC 3339 form:
/// `chrono::DateTime::from_timestamp` followed by `to_rfc3339`. The result is
/// the named `rfc3339_text` of the arguments.
#[verifier::external_body]
fn timestamp_rfc3339(secs: i64, nanos: u32) -> (r: Option<String>)
    ensures
        match r {
            Some(s) => rfc3339_text(secs, nanos) == Some(s@),
            None => rfc3339_text(secs, nanos) is None,
        },
{
    chrono::DateTime::from_timestamp(secs, nanos).map(|dt| dt.to_rfc3339())
}

/// The cell for one value of a column of type `kind`.
pub open spec fn cell_of(kind: ColumnKind, is_null: bool, decoded: Decoded) -> CellValue {
    if is_null {
        CellValue::Null
    } else {
        match (kind, decoded) {
            (ColumnKind::Text, Decoded::Text(s)) => CellValue::Text(s),
            (ColumnKind::Other, Decoded::Text(s)) => CellValue::Text(s),
            (ColumnKind::SmallInt, Decoded::Int2(v)) => CellValue::SmallInt(v),
            (ColumnKind::MedInt, Decoded::Int4(v)) => CellValue::MedInt(v),
            (ColumnKind::BigInt, Decoded::Int8(v)) => CellValue::BigInt(v),
            (ColumnKind::Real, Decoded::Float4(s)) => CellValue::SmallFloat(s),
            (ColumnKind::Double, Decoded::Float8(s)) => CellValue::BigFloat(s),
            (ColumnKind::Numeric, Decoded::Numeric(s)) => CellValue::Text(s),
            (ColumnKind::Uuid, Decoded::Uuid(v)) => CellValue::Uuid(v),
            _ => CellValue::Unsupported,
        }
    }
}

/// Whether `cell` is what a non-null timestamp read as `secs`, `nanos` gives.
pub open spec fn timestamp_cell(secs: i64, nanos: u32, cell: CellValue) -> bool {
    match rfc3339_text(secs, nanos) {
        Some(t) => cell matches CellValue::Text(s) && s@ == t,
        None => cell is Unsupported,
    }
}

/// The cell for one value of a column of type `kind`: `Null` for a null
/// value, the value itself where the read matches the kind (a timestamp in
/// RFC 3339 form, a `NUMERIC` as its text), `Unsupported` otherwise.
pub fn convert_cell(kind: ColumnKind, is_null: bool, decoded: Decoded) -> (c: CellValue)
    ensures
        is_null ==> c == CellValue::Null,
        (!is_null && kind == ColumnKind::Timestamp && decoded is Timestamp) ==> timestamp_cell(
            decoded->Timestamp_0,
            decoded->Timestamp_1,
            c,
        ),
        !(!is_null && kind == ColumnKind::Timestamp && decoded is Timestamp) ==> c == cell_of(
            kind,
            is_null,
            decoded,
        ),
{
    if is_null {
        return CellValue::Null;
    }
    match (kind, decoded) {
        (ColumnKind::Text, Decoded::Text(s)) => CellValue::Text(s),
        (ColumnKind::Other, Decoded::Text(s)) => CellValue::Text(s),
        (ColumnKind::SmallInt, Decoded::Int2(v)) => CellValue::SmallInt(v),
        (ColumnKind::MedInt, Decoded::Int4(v)) => CellValue::MedInt(v),
        (ColumnKind::BigInt, Decoded::Int8(v)) => CellValue::BigInt(v),
        (ColumnKind::Real, Decoded::Float4(s)) => CellValue::SmallFloat(s),
        (ColumnKind::Double, Decoded::Float8(s)) => CellValue::BigFloat(s),
        (ColumnKind::Numeric, Decoded::Numeric(s)) => CellValue::Text(s),
        (ColumnKind::Timestamp, Decoded::Timestamp(secs, nanos)) => {
            match timestamp_rfc3339(secs, nanos) {
                Some(t) => CellValue::Text(t),
                None => CellValue::Unsupported,
            }
        },
        (ColumnKind::Uuid, Decoded::Uuid(v)) => CellValue::Uuid(v),
        _ => CellValue::Unsupported,
    }
}

/// The cell for one value of a column whose type name (upper case) is
/// `col_type` (see `convert_cell`).
pub fn convert_type(col_type: &str, is_null: bool, decoded: Decoded) -> (c: CellValue)
    ensures
        is_null ==> c == CellValue::Null,
        (!is_null && kind_of(col_type@) == ColumnKind::Timestamp && decoded is Timestamp)
            ==> timestamp_cell(decoded->Timestamp_0, decoded->Timestamp_1, c),
        !(!is_null && kind_of(col_type@) == ColumnKind::Timestamp && decoded is Timestamp)
            ==> c == cell_of(kind_of(col_type@), is_null, decoded),
{
    let kind = column_kind(col_type);
    convert_cell(kind, is_null, decoded)
}

// ------------------------------------------------------------------
// Rendering
// ------------------------------------------------------------------

/// The lower-case hexadecimal digit `d`.
pub open spec fn hex_char(d: nat) -> char {
    if d < 10 {
        (d + 48) as char
    } else {
        (d + 87) as char
    }
}

/// The last `count` hexadecimal digits of `v`, most significant first.
pub open spec fn hex_digits(v: nat, count: nat) -> Seq<char>
    decreases count,
{
    if count == 0 {
        Seq::empty()
    } else {
        hex_digits(v / 16, (count - 1) as nat).push(hex_char(v % 16))
    }
}

/// The hyphenated lower-case form of a UUID: its 32 hexadecimal digits in
/// groups of 8, 4, 4, 4 and 12.
pub open spec fn uuid_text(v: u128) -> Seq<char> {
    let h = hex_digits(v as nat, 32);
    h.subrange(0, 8) + seq!['-'] + h.subrange(8, 12) + seq!['-'] + h.subrange(12, 16) + seq![
        '-',
    ] + h.subrange(16, 20) + seq!['-'] + h.subrange(20, 32)
}

/// The text of a UUID (`uuid::Uuid::from_u128(v).to_string()`): the uuid
/// crate's `Display` writes the hyphenated lower-case form.
#[verifier::external_body]
fn uuid_to_string(v: u128) -> (s: String)
    ensures
        s@ == uuid_text(v),
{
    uuid::Uuid::from_u128(v).to_string()
}

/// The text that a result table shows for a cell.
pub open spec fn cell_text_spec(c: CellValue) -> Seq<char> {
    match c {
        CellValue::Text(s) => s@,
        CellValue::SmallInt(v) => signed_decimal(v as int),
        CellValue::MedInt(v) => signed_decimal(v as int),
        CellValue::BigInt(v) => signed_decimal(v as int),
        CellValue::SmallFloat(s) => s@,
        CellValue::BigFloat(s) => s@,
        CellValue::Uuid(v) => uuid_text(v),
        CellValue::BigDecimal(s) => s@,
        CellValue::Null => "NULL"@,
        CellValue::Unsupported => "Unsupported"@,
    }
}

/// The text that a result table shows for a cell.
pub fn cell_text(c: &CellValue) -> (s: String)
    ensures
        s@ == cell_text_spec(*c),
{
    match c {
        CellValue::Text(v) => v.clone(),
        CellValue::SmallInt(v) => i128_to_decimal(*v as i128),
        CellValue::MedInt(v) => i128_to_decimal(*v as i128),
        CellValue::BigInt(v) => i128_to_decimal(*v as i128),
        CellValue::SmallFloat(v) => v.clone(),
        CellValue::BigFloat(v) => v.clone(),
        CellValue::Uuid(v) => uuid_to_string(*v),
        CellValue::BigDecimal(v) => v.clone(),
        CellValue::Null => {
            let mut s = String::new();
            append_str(&mut s, "NULL");
            s
        },
        CellValue::Unsupported => {
            let mut s = String::new();
            append_str(&mut s, "Unsupported");
            s
        },
    }
}

// ------------------------------------------------------------------
// Ordering
// ------------------------------------------------------------------

/// Lexicographic comparison of byte strings: -1, 0 or 1.
pub open spec fn bytes_order(a: Seq<u8>, b: Seq<u8>) -> int
    decreases a.len(),
{
    if a.len() == 0 {
        if b.len() == 0 {
            0
        } else {
            -1
        }
    } else if b.len() == 0 {
        1
    } else if a[0] < b[0] {
        -1
    } else if a[0] > b[0] {
        1
    } else {
        bytes_order(a.drop_first(), b.drop_first())
    }
}

/// Cells sort in three classes: integers, then text, then everything else.
pub open spec fn sort_class(c: CellValue) -> int {
    match c {
        CellValue::SmallInt(_) => 0,
        CellValue::MedInt(_) => 0,
        CellValue::BigInt(_) => 0,
        CellValue::Text(_) => 1,
        _ => 2,
    }
}

/// The value of an integer cell.
pub open spec fn int_value(c: CellValue) -> int {
    match c {
        CellValue::SmallInt(v) => v as int,
        CellValue::MedInt(v) => v as int,
        CellValue::BigInt(v) => v as int,
        _ => 0,
    }
}

/// The UTF-8 bytes of a text cell.
pub open spec fn text_bytes(c: CellValue) -> Seq<u8> {
    match c {
        CellValue::Text(s) => encode_utf8(s@),
        _ => Seq::empty(),
    }
}

/// The order of cells when a column is sorted: by class; integers by value;
/// texts by their bytes, as `String`'s `Ord` compares them; all other cells
/// are equal. The result is -1, 0 or 1.
pub open spec fn cell_order(a: CellValue, b: CellValue) -> int {
    let ca = sort_class(a);
    let cb = sort_class(b);
    if ca < cb {
        -1
    } else if ca > cb {
        1
    } else if ca == 0 {
        if int_value(a) < int_value(b) {
            -1
        } else if int_value(a) > int_value(b) {
            1
        } else {
            0
        }
    } else if ca == 1 {
        bytes_order(text_bytes(a), text_bytes(b))
    } else {
        0
    }
}

/// Byte strings compare equal exactly when they are the same.
pub proof fn lemma_bytes_order_zero(a: Seq<u8>, b: Seq<u8>)
    ensures
        bytes_order(a, b) == 0 <==> a == b,
    decreases a.len(),
{
    if a.len() > 0 && b.len() > 0 && a[0] == b[0] {
        lemma_bytes_order_zero(a.drop_first(), b.drop_first());
        if a.drop_first() == b.drop_first() {
            assert forall|i: int| 0 <= i < a.len() implies a[i] == b[i] by {
                if i > 0 {
                    assert(a[i] == a.drop_first()[i - 1]);
                    assert(b[i] == b.drop_first()[i - 1]);
                }
            }
            assert(a =~= b);
        }
        if a == b {
            assert(a.drop_first() =~= b.drop_first());
        }
    } else if a.len() > 0 && b.len() > 0 {
        assert(a[0] != b[0]);
        assert(a != b);
    } else if a.len() == 0 && b.len() == 0 {
        assert(a =~= b);
    }
}

/// `bytes_order` takes the values -1, 0 and 1, is antisymmetric and is
/// transitive.
pub proof fn lemma_bytes_order_laws(a: Seq<u8>, b: Seq<u8>, c: Seq<u8>)
    ensures
        -1 <= bytes_order(a, b) <= 1,
        bytes_order(a, b) == -bytes_order(b, a),
        bytes_order(a, b) <= 0 && bytes_order(b, c) <= 0 ==> bytes_order(a, c) <= 0,
    decreases a.len(),
{
    if a.len() > 0 && b.len() > 0 && c.len() > 0 {
        lemma_bytes_order_laws(a.drop_first(), b.drop_first(), c.drop_first());
    } else if a.len() > 0 && b.len() > 0 && a[0] == b[0] {
        lemma_bytes_order_laws(a.drop_first(), b.drop_first(), b.drop_first());
    }
}

/// `cell_order` is antisymmetric and takes the values -1, 0 and 1.
pub proof fn lemma_cell_order_antisym(a: CellValue, b: CellValue)
    ensures
        -1 <= cell_order(a, b) <= 1,
        cell_order(a, b) == -cell_order(b, a),
{
    lemma_bytes_order_laws(text_bytes(a), text_bytes(b), text_bytes(b));
}

/// `cell_order` is transitive.
pub proof fn lemma_cell_order_trans(a: CellValue, b: CellValue, c: CellValue)
    requires
        cell_order(a, b) <= 0,
        cell_order(b, c) <= 0,
    ensures
        cell_order(a, c) <= 0,
{
    if sort_class(a) == 1 && sort_class(b) == 1 && sort_class(c) == 1 {
        lemma_bytes_order_laws(text_bytes(a), text_bytes(b), text_bytes(c));
    }
}

/// Compares two byte strings (`[u8]`'s `Ord`).
pub fn compare_bytes(a: &[u8], b: &[u8]) -> (r: i8)
    ensures
        r as int == bytes_order(a@, b@),
{
    let n = a.len();
    let m = b.len();
    let mut i: usize = 0;
    assert(a@.skip(0) =~= a@);
    assert(b@.skip(0) =~= b@);
    while i < n && i < m
        invariant
            n == a@.len(),
            m == b@.len(),
            i <= n,
            i <= m,
            bytes_order(a@, b@) == bytes_order(a@.skip(i as int), b@.skip(i as int)),
        decreases n - i,
    {
        if a[i] < b[i] {
            return -1;
        }
        if a[i] > b[i] {
            return 1;
        }
        assert(a@.skip(i as int).drop_first() =~= a@.skip(i + 1));
        assert(b@.skip(i as int).drop_first() =~= b@.skip(i + 1));
        i = i + 1;
    }
    if i < n {
        1
    } else if i < m {
        -1
    } else {
        0
    }
}

/// Compares two cells by `cell_order`.
pub fn compare_cells(a: &CellValue, b: &CellValue) -> (r: i8)
    ensures
        r as int == cell_order(*a, *b),
{
    let ca = sort_class_of(a);
    let cb = sort_class_of(b);
    if ca < cb {
        return -1;
    }
    if ca > cb {
        return 1;
    }
    match (a, b) {
        (CellValue::Text(x), CellValue::Text(y)) => {
            compare_bytes(x.as_str().as_bytes(), y.as_str().as_bytes())
        },
        _ => {
            if ca == 0 {
                let x = int_of(a);
                let y = int_of(b);
                if x < y {
                    -1
                } else if x > y {
                    1
                } else {
                    0
                }
            } else {
                0
            }
        },
    }
}

fn sort_class_of(c: &CellValue) -> (r: u8)
    ensures
        r as int == sort_class(*c),
{
    match c {
        CellValue::SmallInt(_) => 0,
        CellValue::MedInt(_) => 0,
        CellValue::BigInt(_) => 0,
        CellValue::Text(_) => 1,
        _ => 2,
    }
}

fn int_of(c: &CellValue) -> (r: i64)
    ensures
        r as int == int_value(*c),
{
    match c {
        CellValue::SmallInt(v) => *v as i64,
        CellValue::MedInt(v) => *v as i64,
        CellValue::BigInt(v) => *v,
        _ => 0,
    }
}


// ------------------------------------------------------------------
// Laws of cells
// ------------------------------------------------------------------

/// A null value becomes the `Null` cell, whatever the column's type and
/// whatever the read gave; a non-null value read as the column's type asks
/// keeps what was read.
pub proof fn lemma_cells_hold_what_was_read(kind: ColumnKind, decoded: Decoded)
    ensures
        cell_of(kind, true, decoded) == CellValue::Null,
        kind == ColumnKind::Text || kind == ColumnKind::Other ==> (decoded matches Decoded::Text(s)
            ==> cell_of(kind, false, decoded) == CellValue::Text(s)),
        kind == ColumnKind::SmallInt ==> (decoded matches Decoded::Int2(v) ==> cell_of(kind, false, decoded)
            == CellValue::SmallInt(v)),
        kind == ColumnKind::MedInt ==> (decoded matches Decoded::Int4(v) ==> cell_of(kind, false, decoded)
            == CellValue::MedInt(v)),
        kind == ColumnKind::BigInt ==> (decoded matches Decoded::Int8(v) ==> cell_of(kind, false, decoded)
            == CellValue::BigInt(v)),
        kind == ColumnKind::Real ==> (decoded matches Decoded::Float4(s) ==> cell_of(kind, false, decoded)
            == CellValue::SmallFloat(s)),
        kind == ColumnKind::Double ==> (decoded matches Decoded::Float8(s) ==> cell_of(kind, false, decoded)
            == CellValue::BigFloat(s)),
        kind == ColumnKind::Numeric ==> (decoded matches Decoded::Numeric(s) ==> cell_of(kind, false, decoded)
            == CellValue::Text(s)),
        kind == ColumnKind::Uuid ==> (decoded matches Decoded::Uuid(v) ==> cell_of(kind, false, decoded)
            == CellValue::Uuid(v)),
        decoded is Failed ==> cell_of(kind, false, decoded) == CellValue::Unsupported,
{
}

/// A cell that holds text shows that text (a text cell, the `Display` text
/// of a floating-point value, the text of a `NUMERIC`); an integer cell shows
/// its value in decimal; `Null` shows `NULL` and an unsupported value
/// `Unsupported`.
pub proof fn lemma_cell_text_shows_the_value(c: CellValue)
    ensures
        c matches CellValue::Text(s) ==> cell_text_spec(c) == s@,
        c matches CellValue::SmallFloat(s) ==> cell_text_spec(c) == s@,
        c matches CellValue::BigFloat(s) ==> cell_text_spec(c) == s@,
        c matches CellValue::BigDecimal(s) ==> cell_text_spec(c) == s@,
        c matches CellValue::SmallInt(v) ==> cell_text_spec(c) == signed_decimal(v as int),
        c matches CellValue::MedInt(v) ==> cell_text_spec(c) == signed_decimal(v as int),
        c matches CellValue::BigInt(v) ==> cell_text_spec(c) == signed_decimal(v as int),
        c matches CellValue::Uuid(v) ==> cell_text_spec(c) == uuid_text(v),
        c is Null ==> cell_text_spec(c) == "NULL"@,
        c is Unsupported ==> cell_text_spec(c) == "Unsupported"@,
{
}

/// `c` is an integer cell (of any width) holding `x`.
pub open spec fn holds_integer(c: CellValue, x: int) -> bool {
    ||| c matches CellValue::SmallInt(v) && v as int == x
    ||| c matches CellValue::MedInt(v) && v as int == x
    ||| c matches CellValue::BigInt(v) && v as int == x
}

/// Integer cells, of any width, are ordered by their numeric values: the
/// comparison is -1 exactly when the first value is smaller, 0 when they are
/// equal and 1 when it is greater (so -5 comes before 3).
pub proof fn lemma_integer_cells_in_numeric_order(a: CellValue, b: CellValue, x: int, y: int)
    requires
        holds_integer(a, x),
        holds_integer(b, y),
    ensures
        cell_order(a, b) == -1 <==> x < y,
        cell_order(a, b) == 0 <==> x == y,
        cell_order(a, b) == 1 <==> x > y,
{
}

/// Integer cells come before text cells, and text cells before every other
/// cell (`NULL` included).
pub proof fn lemma_cell_classes_in_order(a: CellValue, b: CellValue, x: int)
    ensures
        holds_integer(a, x) && b is Text ==> cell_order(a, b) == -1,
        a is Text && !(b is Text) && !(b is SmallInt || b is MedInt || b is BigInt) ==> cell_order(a, b) == -1,
{
}

} // verus!
