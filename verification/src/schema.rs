//! The ordered feature columns of a configuration and the fingerprint that
//! identifies them.

use vstd::prelude::*;
use vstd::string::*;
use crate::digest::{sha256_hex, sha256_hex_spec};
use crate::features::{
    FeatureColumn, FeatureDType, FeatureError, FeatureErrorView, FeatureSchema,
    FeatureTransformConfig,
};
use crate::text::{decimal_digits, push_u64, str_eq};

verus! {

/// Lower-case code of the symbol at position `i` of the fixed symbol order.
pub open spec fn symbol_code(i: int) -> Seq<char> {
    if i == 0 {
        "btc"@
    } else if i == 1 {
        "eth"@
    } else if i == 2 {
        "sol"@
    } else {
        "xrp"@
    }
}

pub fn symbol_code_str(i: usize) -> (s: &'static str)
    requires
        i < 4,
    ensures
        s@ == symbol_code(i as int),
{
    if i == 0 {
        "btc"
    } else if i == 1 {
        "eth"
    } else if i == 2 {
        "sol"
    } else {
        "xrp"
    }
}

/// Name of the column of one statistic family over one window.
pub open spec fn window_column_name(symbol: Seq<char>, family: Seq<char>, window: u32) -> Seq<
    char,
> {
    symbol + "_"@ + family + "_"@ + decimal_digits(window as nat) + "s"@
}

/// Names of the columns of one statistic family, one per window, in
/// configuration order.
pub open spec fn family_names(symbol: Seq<char>, family: Seq<char>, windows: Seq<u32>) -> Seq<
    Seq<char>,
> {
    Seq::new(windows.len(), |k: int| window_column_name(symbol, family, windows[k]))
}

/// Names of the columns of one symbol: the one-step return, then the
/// families `ret`, `range`, `vol` and `quote_vol`.
pub open spec fn symbol_names(symbol: Seq<char>, windows: Seq<u32>) -> Seq<Seq<char>> {
    seq![symbol + "_ret_1s"@] + family_names(symbol, "ret"@, windows) + family_names(
        symbol,
        "range"@,
        windows,
    ) + family_names(symbol, "vol"@, windows) + family_names(symbol, "quote_vol"@, windows)
}

/// Names of the columns of the first `n` symbols.
pub open spec fn symbols_names_upto(windows: Seq<u32>, n: nat) -> Seq<Seq<char>>
    decreases n,
{
    if n == 0 {
        Seq::empty()
    } else {
        symbols_names_upto(windows, (n - 1) as nat) + symbol_names(symbol_code(n - 1), windows)
    }
}

/// Names of all columns: the four symbols in order, then the two
/// time-of-week columns.
pub open spec fn schema_names(windows: Seq<u32>) -> Seq<Seq<char>> {
    symbols_names_upto(windows, 4) + seq!["tow_sin"@, "tow_cos"@]
}

pub open spec fn column_names(columns: Seq<FeatureColumn>) -> Seq<Seq<char>> {
    Seq::new(columns.len(), |i: int| columns[i].name@)
}

/// The windows part of the fingerprinted text: each of the first `n` windows
/// followed by a comma.
pub open spec fn windows_text(windows: Seq<u32>, n: nat) -> Seq<char>
    decreases n,
{
    if n == 0 {
        Seq::empty()
    } else {
        windows_text(windows, (n - 1) as nat) + decimal_digits(windows[n - 1] as nat) + ","@
    }
}

/// The columns part of the fingerprinted text: each of the first `n` names
/// followed by its type tag.
pub open spec fn columns_text(names: Seq<Seq<char>>, n: nat) -> Seq<char>
    decreases n,
{
    if n == 0 {
        Seq::empty()
    } else {
        columns_text(names, (n - 1) as nat) + names[n - 1] + ":f64;"@
    }
}

/// The text whose digest is the fingerprint: version, maximum duration,
/// windows and column names, each in a delimited field.
pub open spec fn fingerprint_text(
    version: u32,
    max_duration_seconds: u32,
    windows: Seq<u32>,
    names: Seq<Seq<char>>,
) -> Seq<char> {
    "version:"@ + decimal_digits(version as nat) + ";"@ + "max_duration_seconds:"@
        + decimal_digits(max_duration_seconds as nat) + ";"@ + "windows:"@ + windows_text(
        windows,
        windows.len(),
    ) + ";columns:"@ + columns_text(names, names.len())
}

/// The fingerprint: lowercase hexadecimal SHA-256 of the fingerprinted text,
/// 64 characters.
pub open spec fn fingerprint_spec(
    version: u32,
    max_duration_seconds: u32,
    windows: Seq<u32>,
    names: Seq<Seq<char>>,
) -> Seq<char> {
    sha256_hex_spec(
        vstd::utf8::encode_utf8(fingerprint_text(version, max_duration_seconds, windows, names)),
    )
}

/// Mathematical content of a [`FeatureSchema`].
pub struct SchemaView {
    pub version: u32,
    pub fingerprint: Seq<char>,
    pub names: Seq<Seq<char>>,
}

impl View for FeatureSchema {
    type V = SchemaView;

    open spec fn view(&self) -> SchemaView {
        SchemaView {
            version: self.version,
            fingerprint: self.fingerprint@,
            names: column_names(self.columns@),
        }
    }
}

/// The schema that a configuration determines.
pub open spec fn schema_spec(cfg: &FeatureTransformConfig) -> SchemaView {
    SchemaView {
        version: cfg.schema_version,
        fingerprint: fingerprint_spec(
            cfg.schema_version,
            cfg.max_duration_seconds,
            cfg.windows_seconds@,
            schema_names(cfg.windows_seconds@),
        ),
        names: schema_names(cfg.windows_seconds@),
    }
}

fn push_family(columns: &mut Vec<FeatureColumn>, symbol: &str, family: &str, windows: &Vec<u32>)
    ensures
        column_names(final(columns)@) == column_names(old(columns)@) + family_names(
            symbol@,
            family@,
            windows@,
        ),
{
    let ghost start = column_names(columns@);
    let mut k: usize = 0;
    assert(column_names(columns@) =~= start + family_names(symbol@, family@, windows@).take(0));
    while k < windows.len()
        invariant
            k <= windows@.len(),
            column_names(columns@) == start + family_names(symbol@, family@, windows@).take(
                k as int,
            ),
        decreases windows@.len() - k,
    {
        let mut name = String::new();
        name.append(symbol);
        name.append("_");
        name.append(family);
        name.append("_");
        push_u64(&mut name, windows[k] as u64);
        name.append("s");
        assert(name@ =~= window_column_name(symbol@, family@, windows@[k as int]));
        let ghost before = column_names(columns@);
        let ghost family_all = family_names(symbol@, family@, windows@);
        push_named(columns, name);
        assert(family_all.take(k + 1) =~= family_all.take(k as int).push(family_all[k as int]));
        assert(column_names(columns@) =~= start + family_all.take(k + 1));
        k = k + 1;
    }
    assert(family_names(symbol@, family@, windows@).take(windows@.len() as int)
        =~= family_names(symbol@, family@, windows@));
}

fn push_named(columns: &mut Vec<FeatureColumn>, name: String)
    ensures
        column_names(final(columns)@) == column_names(old(columns)@).push(name@),
{
    columns.push(FeatureColumn { name, dtype: FeatureDType::F64 });
    assert(column_names(columns@) =~= column_names(old(columns)@).push(name@));
}

/// The fingerprint of a configuration and its columns.
pub fn schema_fingerprint(cfg: &FeatureTransformConfig, columns: &Vec<FeatureColumn>) -> (r: String)
    ensures
        r@ == fingerprint_spec(
            cfg.schema_version,
            cfg.max_duration_seconds,
            cfg.windows_seconds@,
            column_names(columns@),
        ),
        r@.len() == 64,
{
    let ghost names = column_names(columns@);
    let mut text = String::new();
    text.append("version:");
    push_u64(&mut text, cfg.schema_version as u64);
    text.append(";");
    text.append("max_duration_seconds:");
    push_u64(&mut text, cfg.max_duration_seconds as u64);
    text.append(";");
    text.append("windows:");
    let ghost head = text@;
    assert(head =~= "version:"@ + decimal_digits(cfg.schema_version as nat) + ";"@
        + "max_duration_seconds:"@ + decimal_digits(cfg.max_duration_seconds as nat) + ";"@
        + "windows:"@);
    let mut i: usize = 0;
    assert(text@ =~= head + windows_text(cfg.windows_seconds@, 0));
    while i < cfg.windows_seconds.len()
        invariant
            i <= cfg.windows_seconds@.len(),
            text@ == head + windows_text(cfg.windows_seconds@, i as nat),
        decreases cfg.windows_seconds@.len() - i,
    {
        push_u64(&mut text, cfg.windows_seconds[i] as u64);
        text.append(",");
        assert(text@ =~= head + windows_text(cfg.windows_seconds@, (i + 1) as nat));
        i = i + 1;
    }
    text.append(";columns:");
    let ghost middle = text@;
    let mut j: usize = 0;
    assert(text@ =~= middle + columns_text(names, 0));
    while j < columns.len()
        invariant
            j <= columns@.len(),
            names == column_names(columns@),
            text@ == middle + columns_text(names, j as nat),
        decreases columns@.len() - j,
    {
        text.append(columns[j].name.as_str());
        text.append(":f64;");
        assert(text@ =~= middle + columns_text(names, (j + 1) as nat));
        j = j + 1;
    }
    assert(text@ =~= fingerprint_text(
        cfg.schema_version,
        cfg.max_duration_seconds,
        cfg.windows_seconds@,
        names,
    ));
    sha256_hex(text.as_str().as_bytes())
}

/// Builds the schema of a configuration: the ordered columns and their
/// fingerprint.
pub fn build_feature_schema(cfg: &FeatureTransformConfig) -> (schema: FeatureSchema)
    ensures
        schema@ == schema_spec(cfg),
        schema.fingerprint@.len() == 64,
{
    let windows = &cfg.windows_seconds;
    let mut columns: Vec<FeatureColumn> = Vec::new();
    let mut i: usize = 0;
    assert(column_names(columns@) =~= symbols_names_upto(windows@, 0));
    while i < 4
        invariant
            i <= 4,
            column_names(columns@) == symbols_names_upto(windows@, i as nat),
        decreases 4 - i,
    {
        let symbol = symbol_code_str(i);
        let ghost before = column_names(columns@);
        let mut first = String::new();
        first.append(symbol);
        first.append("_ret_1s");
        assert(first@ =~= symbol@ + "_ret_1s"@);
        push_named(&mut columns, first);
        push_family(&mut columns, symbol, "ret", windows);
        push_family(&mut columns, symbol, "range", windows);
        push_family(&mut columns, symbol, "vol", windows);
        push_family(&mut columns, symbol, "quote_vol", windows);
        assert(column_names(columns@) =~= before + symbol_names(symbol@, windows@));
        i = i + 1;
    }
    let ghost symbols = column_names(columns@);
    push_named(&mut columns, "tow_sin".to_string());
    push_named(&mut columns, "tow_cos".to_string());
    assert(column_names(columns@) =~= symbols + seq!["tow_sin"@, "tow_cos"@]);
    let fingerprint = schema_fingerprint(cfg, &columns);
    FeatureSchema { version: cfg.schema_version, fingerprint, columns }
}

/// Configurations that agree on version, maximum duration and windows have
/// the same schema, fingerprint included, whatever their gap policy.
pub proof fn lemma_same_config_same_schema(a: &FeatureTransformConfig, b: &FeatureTransformConfig)
    requires
        a.schema_version == b.schema_version,
        a.max_duration_seconds == b.max_duration_seconds,
        a.windows_seconds@ == b.windows_seconds@,
    ensures
        schema_spec(a) == schema_spec(b),
{
}

/// Checks a schema against the version and fingerprint that a consumer
/// expects: a version mismatch is reported first, then a fingerprint mismatch.
pub fn assert_schema_compatible(
    expected_version: u32,
    expected_fingerprint: &str,
    actual: &FeatureSchema,
) -> (r: Result<(), FeatureError>)
    ensures
        r is Ok <==> expected_version == actual.version && expected_fingerprint@
            == actual.fingerprint@,
        expected_version != actual.version ==> r is Err && r->Err_0@
            == (FeatureErrorView::SchemaVersionMismatch {
            expected: expected_version,
            actual: actual.version,
        }),
        expected_version == actual.version && expected_fingerprint@ != actual.fingerprint@ ==> r is Err
            && r->Err_0@ == (FeatureErrorView::SchemaFingerprintMismatch {
            expected: expected_fingerprint@,
            actual: actual.fingerprint@,
        }),
{
    if expected_version != actual.version {
        return Err(
            FeatureError::SchemaVersionMismatch {
                expected: expected_version,
                actual: actual.version,
            },
        );
    }
    if !str_eq(expected_fingerprint, actual.fingerprint.as_str()) {
        return Err(
            FeatureError::SchemaFingerprintMismatch {
                expected: expected_fingerprint.to_string(),
                actual: actual.fingerprint.clone(),
            },
        );
    }
    Ok(())
}

} // verus!

verus! {

pub open spec fn is_digit_char(c: char) -> bool {
    '0' <= c <= '9'
}

proof fn lemma_digits_are_digits(n: nat)
    ensures
        decimal_digits(n).len() >= 1,
        forall|i: int| 0 <= i < decimal_digits(n).len() ==> is_digit_char(#[trigger] decimal_digits(n)[i]),
    decreases n,
{
    if n >= 10 {
        lemma_digits_are_digits(n / 10);
    }
}

proof fn lemma_digit_char_injective(x: int, y: int)
    requires
        0 <= x < 10,
        0 <= y < 10,
        crate::text::digit_char(x) == crate::text::digit_char(y),
    ensures
        x == y,
{
}

/// Different numbers have different decimal digits.
proof fn lemma_decimal_digits_injective(a: nat, b: nat)
    requires
        decimal_digits(a) == decimal_digits(b),
    ensures
        a == b,
    decreases a,
{
    lemma_digits_are_digits(a / 10);
    lemma_digits_are_digits(b / 10);
    if a < 10 {
        assert(decimal_digits(a).len() == 1);
        if b >= 10 {
            assert(decimal_digits(b).len() >= 2);
        }
        assert(decimal_digits(a)[0] == crate::text::digit_char(a as int));
        assert(decimal_digits(b)[0] == crate::text::digit_char(b as int));
        lemma_digit_char_injective(a as int, b as int);
    } else {
        assert(decimal_digits(a).len() >= 2);
        if b < 10 {
            assert(decimal_digits(b).len() == 1);
        }
        let da = decimal_digits(a / 10);
        let db = decimal_digits(b / 10);
        assert(decimal_digits(a) == da.push(crate::text::digit_char((a % 10) as int)));
        assert(decimal_digits(b) == db.push(crate::text::digit_char((b % 10) as int)));
        assert(decimal_digits(a).drop_last() =~= da);
        assert(decimal_digits(b).drop_last() =~= db);
        assert(decimal_digits(a).last() == crate::text::digit_char((a % 10) as int));
        assert(decimal_digits(b).last() == crate::text::digit_char((b % 10) as int));
        lemma_decimal_digits_injective(a / 10, b / 10);
        lemma_digit_char_injective((a % 10) as int, (b % 10) as int);
    }
}

/// Two texts that agree, each made of a part without a delimiter, the
/// delimiter, and a rest, agree part by part.
proof fn lemma_split_at_delimiter(a: Seq<char>, x: Seq<char>, b: Seq<char>, y: Seq<char>, c: char)
    requires
        a + seq![c] + x == b + seq![c] + y,
        forall|i: int| 0 <= i < a.len() ==> a[i] != c,
        forall|i: int| 0 <= i < b.len() ==> b[i] != c,
    ensures
        a == b,
        x == y,
{
    let left = a + seq![c] + x;
    let right = b + seq![c] + y;
    if a.len() < b.len() {
        assert(left[a.len() as int] == c);
        assert(right[a.len() as int] == b[a.len() as int]);
    }
    if b.len() < a.len() {
        assert(right[b.len() as int] == c);
        assert(left[b.len() as int] == a[b.len() as int]);
    }
    assert(a =~= b) by {
        assert forall|i: int| 0 <= i < a.len() implies a[i] == b[i] by {
            assert(left[i] == a[i]);
            assert(right[i] == b[i]);
        }
    }
    assert(left.len() == right.len());
    assert(left.len() == a.len() + 1 + x.len());
    assert(right.len() == b.len() + 1 + y.len());
    assert(x.len() == y.len());
    assert(x =~= y) by {
        assert forall|i: int| 0 <= i < x.len() implies x[i] == y[i] by {
            assert(left[a.len() + 1 + i] == x[i]);
            assert(right[b.len() + 1 + i] == y[i]);
        }
    }
}

/// Texts that agree after the same head agree.
proof fn lemma_strip_head(head: Seq<char>, x: Seq<char>, y: Seq<char>)
    requires
        head + x == head + y,
    ensures
        x == y,
{
    assert((head + x).skip(head.len() as int) =~= x);
    assert((head + y).skip(head.len() as int) =~= y);
}

proof fn lemma_windows_text_chars(windows: Seq<u32>, n: nat)
    requires
        n <= windows.len(),
    ensures
        forall|i: int|
            0 <= i < windows_text(windows, n).len() ==> is_digit_char(
                #[trigger] windows_text(windows, n)[i],
            ) || windows_text(windows, n)[i] == ',',
        n > 0 ==> windows_text(windows, n).len() >= 2 && windows_text(windows, n).last() == ',',
        n == 0 ==> windows_text(windows, n).len() == 0,
    decreases n,
{
    reveal_strlit(",");
    if n > 0 {
        lemma_windows_text_chars(windows, (n - 1) as nat);
        lemma_digits_are_digits(windows[n - 1] as nat);
        let before = windows_text(windows, (n - 1) as nat);
        let digits = decimal_digits(windows[n - 1] as nat);
        let all = windows_text(windows, n);
        assert(all == before + digits + ","@);
        assert(","@.len() == 1 && ","@[0] == ',');
        assert forall|i: int| 0 <= i < all.len() implies is_digit_char(#[trigger] all[i])
            || all[i] == ',' by {
            if i < before.len() {
                assert(all[i] == before[i]);
            } else if i < before.len() + digits.len() {
                assert(all[i] == digits[i - before.len()]);
            } else {
                assert(all[i] == ","@[i - before.len() - digits.len()]);
            }
        }
    }
}

/// Different lists of windows have different texts.
proof fn lemma_windows_text_injective(w1: Seq<u32>, n1: nat, w2: Seq<u32>, n2: nat)
    requires
        n1 <= w1.len(),
        n2 <= w2.len(),
        windows_text(w1, n1) == windows_text(w2, n2),
    ensures
        n1 == n2,
        forall|i: int| 0 <= i < n1 ==> w1[i] == w2[i],
    decreases n1,
{
    reveal_strlit(",");
    lemma_windows_text_chars(w1, n1);
    lemma_windows_text_chars(w2, n2);
    if n1 > 0 {
        assert(n2 > 0);
        let p1 = windows_text(w1, (n1 - 1) as nat);
        let p2 = windows_text(w2, (n2 - 1) as nat);
        let d1 = decimal_digits(w1[n1 - 1] as nat);
        let d2 = decimal_digits(w2[n2 - 1] as nat);
        lemma_digits_are_digits(w1[n1 - 1] as nat);
        lemma_digits_are_digits(w2[n2 - 1] as nat);
        lemma_windows_text_chars(w1, (n1 - 1) as nat);
        lemma_windows_text_chars(w2, (n2 - 1) as nat);
        let t1 = p1 + d1 + ","@;
        let t2 = p2 + d2 + ","@;
        assert(t1 == t2);
        assert(","@.len() == 1);
        assert(p1.len() + d1.len() == p2.len() + d2.len());
        if p1.len() < p2.len() {
            let k = p2.len() - 1;
            assert(t2[k] == p2[k]);
            assert(p2[k] == p2.last());
            assert(t1[k] == d1[k - p1.len()]);
        }
        if p2.len() < p1.len() {
            let k = p1.len() - 1;
            assert(t1[k] == p1[k]);
            assert(p1[k] == p1.last());
            assert(t2[k] == d2[k - p2.len()]);
        }
        assert(p1 =~= p2) by {
            assert forall|i: int| 0 <= i < p1.len() implies p1[i] == p2[i] by {
                assert(t1[i] == p1[i]);
                assert(t2[i] == p2[i]);
            }
        }
        assert(d1 =~= d2) by {
            assert forall|i: int| 0 <= i < d1.len() implies d1[i] == d2[i] by {
                assert(t1[p1.len() + i] == d1[i]);
                assert(t2[p2.len() + i] == d2[i]);
            }
        }
        lemma_decimal_digits_injective(w1[n1 - 1] as nat, w2[n2 - 1] as nat);
        lemma_windows_text_injective(w1, (n1 - 1) as nat, w2, (n2 - 1) as nat);
    }
}

/// Two texts that agree, each made of the same head, digits, a semicolon
/// and a rest, agree in the digits and in the rest.
proof fn lemma_field(head: Seq<char>, d1: Seq<char>, r1: Seq<char>, d2: Seq<char>, r2: Seq<char>)
    requires
        head + (d1 + seq![';'] + r1) == head + (d2 + seq![';'] + r2),
        forall|i: int| 0 <= i < d1.len() ==> is_digit_char(#[trigger] d1[i]) || d1[i] == ',',
        forall|i: int| 0 <= i < d2.len() ==> is_digit_char(#[trigger] d2[i]) || d2[i] == ',',
    ensures
        d1 == d2,
        r1 == r2,
{
    lemma_strip_head(head, d1 + seq![';'] + r1, d2 + seq![';'] + r2);
    lemma_split_at_delimiter(d1, r1, d2, r2, ';');
}

/// The fingerprinted text, field by field.
proof fn lemma_fingerprint_text_shape(
    version: u32,
    max_duration: u32,
    windows: Seq<u32>,
    names: Seq<Seq<char>>,
)
    ensures
        fingerprint_text(version, max_duration, windows, names) == "version:"@ + (decimal_digits(
            version as nat,
        ) + seq![';'] + ("max_duration_seconds:"@ + (decimal_digits(max_duration as nat)
            + seq![';'] + ("windows:"@ + (windows_text(windows, windows.len()) + seq![';'] + (
        "columns:"@ + columns_text(names, names.len()))))))),
{
    reveal_strlit(";");
    reveal_strlit(";columns:");
    reveal_strlit("columns:");
    let semi = seq![';'];
    assert(";"@ =~= semi);
    assert(";columns:"@ =~= semi + "columns:"@);
    assert(fingerprint_text(version, max_duration, windows, names) =~= "version:"@ + (
    decimal_digits(version as nat) + semi + ("max_duration_seconds:"@ + (decimal_digits(
        max_duration as nat,
    ) + semi + ("windows:"@ + (windows_text(windows, windows.len()) + semi + ("columns:"@
        + columns_text(names, names.len()))))))));
}

/// The fingerprinted text tells configurations apart: texts that agree come
/// from the same version, the same maximum duration and the same windows.
/// Fingerprints of configurations that differ in one of these are digests
/// of different texts.
pub proof fn lemma_fingerprint_text_tells_configs_apart(
    version1: u32,
    max_duration1: u32,
    windows1: Seq<u32>,
    names1: Seq<Seq<char>>,
    version2: u32,
    max_duration2: u32,
    windows2: Seq<u32>,
    names2: Seq<Seq<char>>,
)
    requires
        fingerprint_text(version1, max_duration1, windows1, names1) == fingerprint_text(
            version2,
            max_duration2,
            windows2,
            names2,
        ),
    ensures
        version1 == version2,
        max_duration1 == max_duration2,
        windows1 == windows2,
{
    let semi = seq![';'];
    let v1 = decimal_digits(version1 as nat);
    let v2 = decimal_digits(version2 as nat);
    let m1 = decimal_digits(max_duration1 as nat);
    let m2 = decimal_digits(max_duration2 as nat);
    let w1 = windows_text(windows1, windows1.len());
    let w2 = windows_text(windows2, windows2.len());
    let c1 = "columns:"@ + columns_text(names1, names1.len());
    let c2 = "columns:"@ + columns_text(names2, names2.len());
    let tail1 = "windows:"@ + (w1 + semi + c1);
    let tail2 = "windows:"@ + (w2 + semi + c2);
    let mid1 = "max_duration_seconds:"@ + (m1 + semi + tail1);
    let mid2 = "max_duration_seconds:"@ + (m2 + semi + tail2);
    lemma_fingerprint_text_shape(version1, max_duration1, windows1, names1);
    lemma_fingerprint_text_shape(version2, max_duration2, windows2, names2);
    lemma_digits_are_digits(version1 as nat);
    lemma_digits_are_digits(version2 as nat);
    lemma_field("version:"@, v1, mid1, v2, mid2);
    lemma_decimal_digits_injective(version1 as nat, version2 as nat);
    lemma_digits_are_digits(max_duration1 as nat);
    lemma_digits_are_digits(max_duration2 as nat);
    lemma_field("max_duration_seconds:"@, m1, tail1, m2, tail2);
    lemma_decimal_digits_injective(max_duration1 as nat, max_duration2 as nat);
    lemma_windows_text_chars(windows1, windows1.len());
    lemma_windows_text_chars(windows2, windows2.len());
    lemma_field("windows:"@, w1, c1, w2, c2);
    lemma_windows_text_injective(windows1, windows1.len(), windows2, windows2.len());
    assert(windows1 =~= windows2);
}

} // verus!
