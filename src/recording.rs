//! Recording: output formats, segment file names, the byte layout of each
//! writer, and the session that rotates from one segment file to the next.
use vstd::prelude::*;
use vstd::string::*;
use vstd::utf8::encode_utf8;

verus! {

/// The output format of a recording.
#[derive(Clone, Copy, Debug, PartialEq, Eq, Structural)]
pub enum Format {
    Csv,
    Json,
    Binary,
}

/// ASCII lower case of one byte.
pub open spec fn lower(b: u8) -> u8 {
    if 65 <= b <= 90 {
        (b + 32) as u8
    } else {
        b
    }
}

/// `s`, lower-cased byte by byte (ASCII letters only).
pub open spec fn lower_all(s: Seq<u8>) -> Seq<u8> {
    s.map_values(|b: u8| lower(b))
}

/// The format a name stands for, ignoring ASCII case: `csv`, `json`, and
/// `binary` or `bin`. The names are spelled as ASCII codes: `csv` is
/// 99 115 118, `json` is 106 115 111 110, `binary` is 98 105 110 97 114 121.
pub open spec fn format_named(name: Seq<u8>) -> Option<Format> {
    let l = lower_all(name);
    if l == seq![99u8, 115u8, 118u8] {
        Some(Format::Csv)
    } else if l == seq![106u8, 115u8, 111u8, 110u8] {
        Some(Format::Json)
    } else if l == seq![98u8, 105u8, 110u8, 97u8, 114u8, 121u8] || l == seq![98u8, 105u8, 110u8] {
        Some(Format::Binary)
    } else {
        None
    }
}

/// The file extension of a format.
pub open spec fn extension_spec(f: Format) -> Seq<char> {
    match f {
        Format::Csv => seq!['c', 's', 'v'],
        Format::Json => seq!['j', 's', 'o', 'n'],
        Format::Binary => seq!['b', 'i', 'n'],
    }
}

/// Whether the bytes of `b`, lower-cased, are exactly `word`.
fn lower_equals(b: &[u8], word: &[u8]) -> (r: bool)
    ensures
        r == (lower_all(b@) == word@),
{
    if b.len() != word.len() {
        assert(lower_all(b@).len() != word@.len());
        return false;
    }
    let mut i: usize = 0;
    while i < b.len()
        invariant
            b@.len() == word@.len(),
            i <= b@.len(),
            forall|k: int| 0 <= k < i ==> lower(b@[k]) == word@[k],
        decreases b@.len() - i,
    {
        let c = b[i];
        let l = if 65 <= c && c <= 90 {
            c + 32
        } else {
            c
        };
        if l != word[i] {
            assert(lower_all(b@)[i as int] != word@[i as int]);
            return false;
        }
        i = i + 1;
    }
    assert(lower_all(b@) =~= word@);
    true
}

/// Appends the bytes of `s` to `out`.
fn push_bytes(out: &mut Vec<u8>, s: &[u8])
    ensures
        final(out)@ == old(out)@ + s@,
{
    let mut i: usize = 0;
    while i < s.len()
        invariant
            i <= s@.len(),
            out@ == old(out)@ + s@.subrange(0, i as int),
        decreases s@.len() - i,
    {
        out.push(s[i]);
        assert(out@ =~= old(out)@ + s@.subrange(0, i + 1));
        i = i + 1;
    }
    assert(s@.subrange(0, s@.len() as int) =~= s@);
}

impl Format {
    /// Reads a format name, ignoring ASCII case; any other name is refused
    /// with a message that quotes it.
    pub fn try_from(v: &str) -> (r: Result<Format, String>)
        ensures
            format_named(v.spec_bytes()) matches Some(f) ==> r == Ok::<Format, String>(f),
            format_named(v.spec_bytes()) is None ==> (r matches Err(e) && e@ == "Invalid format '"@
                + v@ + "'. Expected csv | json | binary"@),
    {
        let b = v.as_bytes();
        if lower_equals(b, [99u8, 115u8, 118u8].as_slice()) {
            return Ok(Format::Csv);
        }
        if lower_equals(b, [106u8, 115u8, 111u8, 110u8].as_slice()) {
            return Ok(Format::Json);
        }
        if lower_equals(b, [98u8, 105u8, 110u8, 97u8, 114u8, 121u8].as_slice()) || lower_equals(
            b,
            [98u8, 105u8, 110u8].as_slice(),
        ) {
            return Ok(Format::Binary);
        }
        let mut msg = String::new();
        msg.append("Invalid format '");
        msg.append(v);
        msg.append("'. Expected csv | json | binary");
        proof {
            reveal_strlit("Invalid format '");
            reveal_strlit("'. Expected csv | json | binary");
        }
        Err(msg)
    }

    /// The file extension for this format: `csv`, `json` or `bin`.
    pub fn extension(self) -> (r: &'static str)
        ensures
            r@ == extension_spec(self),
    {
        proof {
            reveal_strlit("csv");
            reveal_strlit("json");
            reveal_strlit("bin");
        }
        match self {
            Format::Csv => "csv",
            Format::Json => "json",
            Format::Binary => "bin",
        }
    }
}

/// The ASCII decimal digits of `n`, most significant first.
pub open spec fn decimal(n: nat) -> Seq<u8>
    decreases n,
{
    if n < 10 {
        seq![(48 + n) as u8]
    } else {
        decimal(n / 10).push((48 + n % 10) as u8)
    }
}

/// The character of a decimal digit.
pub open spec fn digit_char(d: nat) -> char {
    if d == 0 {
        '0'
    } else if d == 1 {
        '1'
    } else if d == 2 {
        '2'
    } else if d == 3 {
        '3'
    } else if d == 4 {
        '4'
    } else if d == 5 {
        '5'
    } else if d == 6 {
        '6'
    } else if d == 7 {
        '7'
    } else if d == 8 {
        '8'
    } else {
        '9'
    }
}

/// The decimal digits of `n` as characters.
pub open spec fn decimal_chars(n: nat) -> Seq<char>
    decreases n,
{
    if n < 10 {
        seq![digit_char(n)]
    } else {
        decimal_chars(n / 10).push(digit_char(n % 10))
    }
}

/// Appends the decimal digits of `n` to `out`.
fn push_decimal(out: &mut Vec<u8>, n: u64)
    ensures
        final(out)@ == old(out)@ + decimal(n as nat),
    decreases n,
{
    if n < 10 {
        out.push((48 + n) as u8);
        assert(final(out)@ =~= old(out)@ + decimal(n as nat));
    } else {
        push_decimal(out, n / 10);
        out.push((48 + n % 10) as u8);
        assert(final(out)@ =~= old(out)@ + decimal(n as nat));
    }
}

/// A one-character string holding the digit `d`.
fn digit_str(d: u64) -> (r: &'static str)
    requires
        d < 10,
    ensures
        r@ == seq![digit_char(d as nat)],
{
    proof {
        reveal_strlit("0");
        reveal_strlit("1");
        reveal_strlit("2");
        reveal_strlit("3");
        reveal_strlit("4");
        reveal_strlit("5");
        reveal_strlit("6");
        reveal_strlit("7");
        reveal_strlit("8");
        reveal_strlit("9");
    }
    if d == 0 {
        "0"
    } else if d == 1 {
        "1"
    } else if d == 2 {
        "2"
    } else if d == 3 {
        "3"
    } else if d == 4 {
        "4"
    } else if d == 5 {
        "5"
    } else if d == 6 {
        "6"
    } else if d == 7 {
        "7"
    } else if d == 8 {
        "8"
    } else {
        "9"
    }
}

/// Appends the decimal digits of `n` to the string `out`.
fn append_decimal(out: &mut String, n: u64)
    ensures
        final(out)@ == old(out)@ + decimal_chars(n as nat),
    decreases n,
{
    if n < 10 {
        out.append(digit_str(n));
    } else {
        append_decimal(out, n / 10);
        out.append(digit_str(n % 10));
    }
    assert(final(out)@ =~= old(out)@ + decimal_chars(n as nat));
}

/// `serial_recording_` followed by the decimal digits of `n`.
pub open spec fn base_name_spec(now_ms: nat) -> Seq<char> {
    seq!['s', 'e', 'r', 'i', 'a', 'l', '_', 'r', 'e', 'c', 'o', 'r', 'd', 'i', 'n', 'g', '_']
        + decimal_chars(now_ms)
}

/// The file name of a segment begun at `now_ms`: the base name, a dot and
/// the format's extension.
pub open spec fn segment_name_spec(now_ms: nat, f: Format) -> Seq<char> {
    base_name_spec(now_ms) + seq!['.'] + extension_spec(f)
}

/// The base name of a recording file begun at `now_ms` milliseconds after
/// the Unix epoch: `serial_recording_<now_ms>`.
pub fn base_filename(now_ms: u64) -> (r: String)
    ensures
        r@ == base_name_spec(now_ms as nat),
{
    let mut s = String::new();
    s.append("serial_recording_");
    proof {
        reveal_strlit("serial_recording_");
    }
    append_decimal(&mut s, now_ms);
    assert(s@ =~= base_name_spec(now_ms as nat));
    s
}

/// The name of the segment file begun at `now_ms` in format `f`.
pub fn segment_file_name(now_ms: u64, f: Format) -> (r: String)
    ensures
        r@ == segment_name_spec(now_ms as nat, f),
{
    let mut s = base_filename(now_ms);
    s.append(".");
    s.append(f.extension());
    proof {
        reveal_strlit(".");
    }
    assert(s@ =~= segment_name_spec(now_ms as nat, f));
    s
}

/// One recorded sample as a writer receives it: the capture time in
/// milliseconds, each channel's value as text (for the text formats), and
/// each channel's value as the bits of a 64-bit float (for the binary format).
pub struct RecordEntry {
    pub timestamp_ms: u64,
    pub texts: Vec<String>,
    pub bits: [u64; 8],
}

/// The contents of a [`RecordEntry`].
pub struct EntryView {
    pub timestamp_ms: u64,
    pub texts: Seq<Seq<char>>,
    pub bits: Seq<u64>,
}

impl View for RecordEntry {
    type V = EntryView;

    open spec fn view(&self) -> EntryView {
        EntryView {
            timestamp_ms: self.timestamp_ms,
            texts: self.texts@.map_values(|t: String| t@),
            bits: self.bits@,
        }
    }
}

/// The views of a sequence of entries.
pub open spec fn entry_views(es: Seq<RecordEntry>) -> Seq<EntryView> {
    es.map_values(|e: RecordEntry| e@)
}

/// The UTF-8 bytes of a text.
pub open spec fn text_bytes(t: Seq<char>) -> Seq<u8> {
    encode_utf8(t)
}

/// Each text preceded by a comma.
pub open spec fn comma_fields(ts: Seq<Seq<char>>) -> Seq<u8>
    decreases ts.len(),
{
    if ts.len() == 0 {
        Seq::empty()
    } else {
        comma_fields(ts.drop_last()) + seq![44u8] + text_bytes(ts.last())
    }
}

/// The texts separated by commas.
pub open spec fn comma_joined(ts: Seq<Seq<char>>) -> Seq<u8> {
    if ts.len() == 0 {
        Seq::empty()
    } else {
        text_bytes(ts[0]) + comma_fields(ts.drop_first())
    }
}

/// The `k` low bytes of `x`, least significant first.
pub open spec fn le_n(x: nat, k: nat) -> Seq<u8>
    decreases k,
{
    if k == 0 {
        Seq::empty()
    } else {
        seq![(x % 256) as u8] + le_n(x / 256, (k - 1) as nat)
    }
}

/// Each value as eight little-endian bytes.
pub open spec fn bits_bytes(bs: Seq<u64>) -> Seq<u8>
    decreases bs.len(),
{
    if bs.len() == 0 {
        Seq::empty()
    } else {
        bits_bytes(bs.drop_last()) + le_n(bs.last() as nat, 8)
    }
}

/// `timestamp`
pub open spec fn timestamp_word() -> Seq<u8> {
    seq![116u8, 105u8, 109u8, 101u8, 115u8, 116u8, 97u8, 109u8, 112u8]
}

/// `,channel_0` to `,channel_{k-1}`.
pub open spec fn channel_columns(k: nat) -> Seq<u8>
    decreases k,
{
    if k == 0 {
        Seq::empty()
    } else {
        channel_columns((k - 1) as nat) + seq![44u8, 99u8, 104u8, 97u8, 110u8, 110u8, 101u8, 108u8, 95u8, (48 + k - 1) as u8]
    }
}

/// The CSV header line: `timestamp,channel_0,...,channel_7` and a newline.
pub open spec fn csv_header() -> Seq<u8> {
    timestamp_word() + channel_columns(8) + seq![10u8]
}

/// A CSV line: the timestamp, each value after a comma, and a newline.
pub open spec fn csv_row(e: EntryView) -> Seq<u8> {
    decimal(e.timestamp_ms as nat) + comma_fields(e.texts) + seq![10u8]
}

/// A JSON object `{"timestamp":<ms>,"values":[v0,...]}`.
pub open spec fn json_entry(e: EntryView) -> Seq<u8> {
    seq![123u8, 34u8] + timestamp_word() + seq![34u8, 58u8] + decimal(e.timestamp_ms as nat)
        + seq![44u8, 34u8, 118u8, 97u8, 108u8, 117u8, 101u8, 115u8, 34u8, 58u8, 91u8]
        + comma_joined(e.texts) + seq![93u8, 125u8]
}

/// A binary record: the timestamp in 8 bytes, the value count in 4 bytes,
/// then each value in 8 bytes, all little-endian.
pub open spec fn binary_entry(e: EntryView) -> Seq<u8> {
    le_n(e.timestamp_ms as nat, 8) + le_n(e.bits.len(), 4) + bits_bytes(e.bits)
}

/// What a writer puts in a new file before any entry.
pub open spec fn opening(f: Format) -> Seq<u8> {
    match f {
        Format::Csv => csv_header(),
        Format::Json => seq![91u8],
        Format::Binary => Seq::empty(),
    }
}

/// What a writer puts at the end of a file when it is finalized.
pub open spec fn closing(f: Format) -> Seq<u8> {
    match f {
        Format::Json => seq![93u8],
        _ => Seq::empty(),
    }
}

/// The bytes of the entries of one file; JSON objects after the first are
/// preceded by a comma.
pub open spec fn body(f: Format, es: Seq<EntryView>) -> Seq<u8>
    decreases es.len(),
{
    if es.len() == 0 {
        Seq::empty()
    } else {
        let init = body(f, es.drop_last());
        let e = es.last();
        match f {
            Format::Csv => init + csv_row(e),
            Format::Json => init + (if es.len() > 1 {
                seq![44u8]
            } else {
                Seq::empty()
            }) + json_entry(e),
            Format::Binary => init + binary_entry(e),
        }
    }
}

/// A complete, finalized file holding `es`.
pub open spec fn document(f: Format, es: Seq<EntryView>) -> Seq<u8> {
    opening(f) + body(f, es) + closing(f)
}

/// Appends the `k` low bytes of `x`, least significant first.
fn push_le(out: &mut Vec<u8>, x: u64, k: usize)
    requires
        k <= 8,
    ensures
        final(out)@ == old(out)@ + le_n(x as nat, k as nat),
{
    let mut y = x;
    let mut i: usize = 0;
    while i < k
        invariant
            i <= k,
            out@ + le_n(y as nat, (k - i) as nat) == old(out)@ + le_n(x as nat, k as nat),
        decreases k - i,
    {
        let ghost before = out@;
        out.push((y % 256) as u8);
        assert(out@ + le_n((y / 256) as nat, (k - i - 1) as nat) =~= before + le_n(
            y as nat,
            (k - i) as nat,
        ));
        y = y / 256;
        i = i + 1;
    }
    assert(le_n(y as nat, 0) =~= Seq::<u8>::empty());
    assert(out@ =~= out@ + le_n(y as nat, 0));
}

/// Appends the UTF-8 bytes of `t`.
fn push_text(out: &mut Vec<u8>, t: &String)
    ensures
        final(out)@ == old(out)@ + text_bytes(t@),
{
    push_bytes(out, t.as_str().as_bytes());
}

/// Appends each text of `ts` preceded by a comma.
fn push_comma_fields(out: &mut Vec<u8>, ts: &Vec<String>, from: usize)
    requires
        from <= ts@.len(),
    ensures
        final(out)@ == old(out)@ + comma_fields(
            ts@.subrange(from as int, ts@.len() as int).map_values(|t: String| t@),
        ),
{
    let mut i: usize = from;
    while i < ts.len()
        invariant
            from <= i <= ts@.len(),
            out@ == old(out)@ + comma_fields(
                ts@.subrange(from as int, i as int).map_values(|t: String| t@),
            ),
        decreases ts@.len() - i,
    {
        let ghost before = out@;
        out.push(44);
        push_text(out, &ts[i]);
        let ghost next = ts@.subrange(from as int, i + 1).map_values(|t: String| t@);
        assert(next.drop_last() =~= ts@.subrange(from as int, i as int).map_values(
            |t: String| t@,
        ));
        assert(out@ =~= old(out)@ + comma_fields(next));
        i = i + 1;
    }
}

/// Appends the CSV header line.
fn push_csv_header(out: &mut Vec<u8>)
    ensures
        final(out)@ == old(out)@ + csv_header(),
{
    push_bytes(out, [116u8, 105u8, 109u8, 101u8, 115u8, 116u8, 97u8, 109u8, 112u8].as_slice());
    let mut c: u8 = 0;
    while c < 8
        invariant
            c <= 8,
            out@ == old(out)@ + timestamp_word() + channel_columns(c as nat),
        decreases 8 - c,
    {
        push_bytes(out, [44u8, 99u8, 104u8, 97u8, 110u8, 110u8, 101u8, 108u8, 95u8].as_slice());
        out.push(48 + c);
        assert(out@ =~= old(out)@ + timestamp_word() + channel_columns((c + 1) as nat));
        c = c + 1;
    }
    out.push(10);
    assert(out@ =~= old(out)@ + csv_header());
}

/// Appends the bytes of one entry in format `f`; `after_first` says whether
/// the file already holds an entry.
fn push_entry(out: &mut Vec<u8>, f: Format, e: &RecordEntry, after_first: bool)
    ensures
        final(out)@ == old(out)@ + match f {
            Format::Csv => csv_row(e@),
            Format::Json => (if after_first {
                seq![44u8]
            } else {
                Seq::empty()
            }) + json_entry(e@),
            Format::Binary => binary_entry(e@),
        },
{
    let ghost texts = e.texts@.map_values(|t: String| t@);
    assert(e.texts@.subrange(0, e.texts@.len() as int) =~= e.texts@);
    match f {
        Format::Csv => {
            push_decimal(out, e.timestamp_ms);
            push_comma_fields(out, &e.texts, 0);
            out.push(10);
            assert(final(out)@ =~= old(out)@ + csv_row(e@));
        },
        Format::Json => {
            if after_first {
                out.push(44);
            }
            let ghost start = out@;
            push_bytes(
                out,
                [123u8, 34u8, 116u8, 105u8, 109u8, 101u8, 115u8, 116u8, 97u8, 109u8, 112u8, 34u8, 58u8].as_slice(),
            );
            push_decimal(out, e.timestamp_ms);
            push_bytes(
                out,
                [44u8, 34u8, 118u8, 97u8, 108u8, 117u8, 101u8, 115u8, 34u8, 58u8, 91u8].as_slice(),
            );
            if e.texts.len() > 0 {
                push_text(out, &e.texts[0]);
                push_comma_fields(out, &e.texts, 1);
                assert(e.texts@.subrange(1, e.texts@.len() as int).map_values(|t: String| t@)
                    =~= texts.drop_first());
            }
            out.push(93);
            out.push(125);
            assert(out@ =~= start + json_entry(e@));
            assert(final(out)@ =~= old(out)@ + (if after_first {
                seq![44u8]
            } else {
                Seq::empty()
            }) + json_entry(e@));
        },
        Format::Binary => {
            push_le(out, e.timestamp_ms, 8);
            push_le(out, 8, 4);
            let mut i: usize = 0;
            while i < 8
                invariant
                    i <= 8,
                    out@ == old(out)@ + le_n(e.timestamp_ms as nat, 8) + le_n(8, 4) + bits_bytes(
                        e.bits@.subrange(0, i as int),
                    ),
                decreases 8 - i,
            {
                push_le(out, e.bits[i], 8);
                assert(e.bits@.subrange(0, i + 1).drop_last() =~= e.bits@.subrange(0, i as int));
                i = i + 1;
            }
            assert(e.bits@.subrange(0, 8) =~= e.bits@);
            assert(final(out)@ =~= old(out)@ + binary_entry(e@));
        },
    }
}

/// How many times the byte `b` occurs in `s`.
pub open spec fn count(s: Seq<u8>, b: u8) -> nat
    decreases s.len(),
{
    if s.len() == 0 {
        0
    } else {
        count(s.drop_last(), b) + if s.last() == b {
            1nat
        } else {
            0nat
        }
    }
}

proof fn lemma_count_add(x: Seq<u8>, y: Seq<u8>, b: u8)
    ensures
        count(x + y, b) == count(x, b) + count(y, b),
    decreases y.len(),
{
    if y.len() == 0 {
        assert(x + y =~= x);
    } else {
        lemma_count_add(x, y.drop_last(), b);
        assert((x + y).drop_last() =~= x + y.drop_last());
    }
}

proof fn lemma_count_single(x: u8, b: u8)
    ensures
        count(seq![x], b) == if x == b {
            1nat
        } else {
            0nat
        },
{
    assert(seq![x].drop_last() =~= Seq::<u8>::empty());
    assert(count(Seq::<u8>::empty(), b) == 0);
    assert(seq![x].last() == x);
    assert(count(seq![x], b) == count(seq![x].drop_last(), b) + if seq![x].last() == b {
        1nat
    } else {
        0nat
    });
}

proof fn lemma_decimal_has_digits_only(n: nat, b: u8)
    requires
        b < 48 || b > 57,
    ensures
        count(decimal(n), b) == 0,
    decreases n,
{
    if n >= 10 {
        lemma_decimal_has_digits_only(n / 10, b);
        let x = (48 + n % 10) as u8;
        assert(decimal(n) == decimal(n / 10).push(x));
        assert(decimal(n / 10).push(x) =~= decimal(n / 10) + seq![x]);
        lemma_count_add(decimal(n / 10), seq![x], b);
        lemma_count_single(x, b);
    } else {
        lemma_count_single((48 + n) as u8, b);
    }
}

/// A text that holds neither a comma nor a newline.
pub open spec fn plain_field(t: Seq<char>) -> bool {
    count(text_bytes(t), 44) == 0 && count(text_bytes(t), 10) == 0
}

proof fn lemma_comma_fields_count(ts: Seq<Seq<char>>)
    requires
        forall|i: int| 0 <= i < ts.len() ==> plain_field(#[trigger] ts[i]),
    ensures
        count(comma_fields(ts), 44) == ts.len(),
        count(comma_fields(ts), 10) == 0,
    decreases ts.len(),
{
    if ts.len() > 0 {
        let init = ts.drop_last();
        assert forall|i: int| 0 <= i < init.len() implies plain_field(#[trigger] init[i]) by {
            assert(init[i] == ts[i]);
        }
        lemma_comma_fields_count(init);
        assert(plain_field(ts[ts.len() - 1]));
        lemma_count_add(comma_fields(init), seq![44u8], 44);
        lemma_count_add(comma_fields(init) + seq![44u8], text_bytes(ts.last()), 44);
        lemma_count_add(comma_fields(init), seq![44u8], 10);
        lemma_count_add(comma_fields(init) + seq![44u8], text_bytes(ts.last()), 10);
        lemma_count_single(44, 44);
        lemma_count_single(44, 10);
    }
}

proof fn lemma_channel_columns_count(k: nat)
    requires
        k <= 8,
    ensures
        count(channel_columns(k), 44) == k,
        count(channel_columns(k), 10) == 0,
    decreases k,
{
    if k > 0 {
        let col = seq![44u8, 99u8, 104u8, 97u8, 110u8, 110u8, 101u8, 108u8, 95u8, (48 + k - 1) as u8];
        lemma_channel_columns_count((k - 1) as nat);
        lemma_count_add(channel_columns((k - 1) as nat), col, 44);
        lemma_count_add(channel_columns((k - 1) as nat), col, 10);
        assert(count(col, 44) == 1 && count(col, 10) == 0) by {
            reveal_with_fuel(count, 11);
        }
    }
}

proof fn lemma_count_absent(s: Seq<u8>, b: u8)
    requires
        forall|i: int| 0 <= i < s.len() ==> s[i] != b,
    ensures
        count(s, b) == 0,
    decreases s.len(),
{
    if s.len() > 0 {
        lemma_count_absent(s.drop_last(), b);
    }
}

proof fn lemma_csv_header_line()
    ensures
        count(csv_header(), 44) == 8,
        count(csv_header(), 10) == 1,
        csv_header().last() == 10,
{
    lemma_channel_columns_count(8);
    lemma_count_absent(timestamp_word(), 44);
    lemma_count_absent(timestamp_word(), 10);
    lemma_count_add(timestamp_word(), channel_columns(8), 44);
    lemma_count_add(timestamp_word() + channel_columns(8), seq![10u8], 44);
    lemma_count_add(timestamp_word(), channel_columns(8), 10);
    lemma_count_add(timestamp_word() + channel_columns(8), seq![10u8], 10);
    lemma_count_single(10, 44);
    lemma_count_single(10, 10);
}

/// The CSV header is one line of nine comma-separated columns, and every
/// CSV row of an entry with eight plain value texts is one line of nine
/// comma-separated fields: eight commas, and one newline, at its end.
pub proof fn lemma_csv_lines(e: EntryView)
    requires
        e.texts.len() == 8,
        forall|i: int| 0 <= i < e.texts.len() ==> plain_field(#[trigger] e.texts[i]),
    ensures
        count(csv_header(), 44) == 8,
        count(csv_header(), 10) == 1,
        csv_header().last() == 10,
        count(csv_row(e), 44) == 8,
        count(csv_row(e), 10) == 1,
        csv_row(e).last() == 10,
{
    lemma_csv_header_line();
    lemma_decimal_has_digits_only(e.timestamp_ms as nat, 44);
    lemma_decimal_has_digits_only(e.timestamp_ms as nat, 10);
    lemma_comma_fields_count(e.texts);
    let d = decimal(e.timestamp_ms as nat);
    lemma_count_add(d, comma_fields(e.texts), 44);
    lemma_count_add(d + comma_fields(e.texts), seq![10u8], 44);
    lemma_count_add(d, comma_fields(e.texts), 10);
    lemma_count_add(d + comma_fields(e.texts), seq![10u8], 10);
    lemma_count_single(10, 44);
    lemma_count_single(10, 10);
}

/// A CSV file of `n` entries, each with eight plain value texts, holds
/// `n + 1` lines (the header, then one per entry, in order), each ending
/// in a newline and made of nine comma-separated fields.
pub proof fn lemma_csv_document(es: Seq<EntryView>)
    requires
        forall|i: int|
            0 <= i < es.len() ==> (#[trigger] es[i]).texts.len() == 8 && forall|j: int|
                0 <= j < es[i].texts.len() ==> plain_field(#[trigger] es[i].texts[j]),
    ensures
        document(Format::Csv, es) == csv_header() + body(Format::Csv, es),
        count(document(Format::Csv, es), 10) == es.len() + 1,
        count(document(Format::Csv, es), 44) == 8 * (es.len() + 1),
        document(Format::Csv, es).last() == 10,
    decreases es.len(),
{
    let d = document(Format::Csv, es);
    assert(d =~= csv_header() + body(Format::Csv, es));
    if es.len() == 0 {
        lemma_csv_header_line();
        assert(d =~= csv_header());
    } else {
        let init = es.drop_last();
        assert forall|i: int| 0 <= i < init.len() implies (#[trigger] init[i]).texts.len() == 8
            && forall|j: int| 0 <= j < init[i].texts.len() ==> plain_field(#[trigger] init[i].texts[j]) by {
            assert(init[i] == es[i]);
        }
        lemma_csv_document(init);
        let e = es.last();
        assert(es[es.len() - 1] == e);
        lemma_csv_lines(e);
        let prev = document(Format::Csv, init);
        assert(d =~= prev + csv_row(e));
        lemma_count_add(prev, csv_row(e), 10);
        lemma_count_add(prev, csv_row(e), 44);
    }
}

/// All entries of the segments, in order.
pub open spec fn flatten(segs: Seq<Seq<EntryView>>) -> Seq<EntryView>
    decreases segs.len(),
{
    if segs.len() == 0 {
        Seq::empty()
    } else {
        flatten(segs.drop_last()) + segs.last()
    }
}

/// `segs` with `batch` appended to its last segment.
pub open spec fn append_to_last(segs: Seq<Seq<EntryView>>, batch: Seq<EntryView>) -> Seq<
    Seq<EntryView>,
> {
    segs.update(segs.len() - 1, segs.last() + batch)
}

/// Across segment rotation no entry is lost or duplicated: starting a new
/// segment leaves the entries of all segments as they were, and writing a
/// batch adds exactly that batch after them, so each entry written lands in
/// exactly one segment, in the order written.
pub proof fn lemma_rotation_keeps_every_entry(segs: Seq<Seq<EntryView>>, batch: Seq<EntryView>)
    requires
        segs.len() >= 1,
    ensures
        flatten(segs.push(Seq::empty())) == flatten(segs),
        flatten(append_to_last(segs, batch)) == flatten(segs) + batch,
{
    assert(segs.push(Seq::empty()).drop_last() =~= segs);
    assert(flatten(segs) + Seq::<EntryView>::empty() =~= flatten(segs));
    let u = append_to_last(segs, batch);
    assert(u.drop_last() =~= segs.drop_last());
    assert(flatten(segs.drop_last()) + (segs.last() + batch) =~= flatten(segs.drop_last())
        + segs.last() + batch);
}

/// A file that a session opens: its name and the bytes to write first.
pub struct SegmentFile {
    pub file_name: String,
    pub opening: Vec<u8>,
}

/// What the recorder's thread is to do next.
#[derive(Clone, Copy, Debug, PartialEq, Eq, Structural)]
pub enum RecorderStep {
    /// Recording was stopped: drain the buffer one last time, write what
    /// came and finish the current file (see [`RecordingSession::finish`]).
    Finish,
    /// The segment is old enough: open the next file (see
    /// [`RecordingSession::next_segment`]), then rotate to it, or postpone
    /// the rotation if it could not be opened.
    Rotate,
    /// Drain the recording buffer and write what came.
    Drain,
}

/// An active recording: its format, the age limit of a segment, when the
/// current segment began, and (as ghost state) the entries of every segment
/// so far and the bytes of the current file so far.
pub struct RecordingSession {
    format: Format,
    max_duration_ms: u64,
    segment_start_ms: u64,
    segment_empty: bool,
    segments: Ghost<Seq<Seq<EntryView>>>,
    written: Ghost<Seq<u8>>,
}

impl RecordingSession {
    /// The session's format.
    pub closed spec fn format_spec(&self) -> Format {
        self.format
    }

    /// When the current segment began, in milliseconds.
    pub closed spec fn start_spec(&self) -> nat {
        self.segment_start_ms as nat
    }

    /// The age limit of a segment, in milliseconds.
    pub closed spec fn max_spec(&self) -> nat {
        self.max_duration_ms as nat
    }

    /// The entries of each segment, oldest segment first.
    pub closed spec fn segments(&self) -> Seq<Seq<EntryView>> {
        self.segments@
    }

    /// The bytes written to the current segment's file so far.
    pub closed spec fn written(&self) -> Seq<u8> {
        self.written@
    }

    /// There is a current segment, and its file holds the opening bytes and
    /// its entries.
    pub closed spec fn wf(&self) -> bool {
        &&& self.segments@.len() >= 1
        &&& self.written@ == opening(self.format) + body(self.format, self.segments@.last())
        &&& self.segment_empty == (self.segments@.last().len() == 0)
    }

    /// The format of the session.
    pub fn format(&self) -> (r: Format)
        ensures
            r == self.format_spec(),
    {
        self.format
    }

    fn open_segment(format: Format, now_ms: u64) -> (r: SegmentFile)
        ensures
            r.file_name@ == segment_name_spec(now_ms as nat, format),
            r.opening@ == opening(format),
    {
        let file_name = segment_file_name(now_ms, format);
        let mut bytes: Vec<u8> = Vec::new();
        match format {
            Format::Csv => push_csv_header(&mut bytes),
            Format::Json => bytes.push(91),
            Format::Binary => {},
        }
        assert(bytes@ =~= opening(format));
        SegmentFile { file_name, opening: bytes }
    }

    /// Starts a recording in the format named `format_name` (see
    /// [`Format::try_from`]), whose segments last `max_duration_ms`
    /// milliseconds, at time `now_ms`. Returns the session and its first
    /// file; an unknown format name is refused.
    pub fn start(format_name: &str, max_duration_ms: u64, now_ms: u64) -> (r: Result<
        (RecordingSession, SegmentFile),
        String,
    >)
        ensures
            format_named(format_name.spec_bytes()) is None <==> r is Err,
            r matches Err(e) ==> e@ == "Invalid format '"@ + format_name@
                + "'. Expected csv | json | binary"@,
            r matches Ok((s, file)) ==> {
                &&& s.wf()
                &&& Some(s.format_spec()) == format_named(format_name.spec_bytes())
                &&& s.max_spec() == max_duration_ms
                &&& s.start_spec() == now_ms
                &&& s.segments() == seq![Seq::<EntryView>::empty()]
                &&& s.written() == file.opening@
                &&& file.opening@ == opening(s.format_spec())
                &&& file.file_name@ == segment_name_spec(now_ms as nat, s.format_spec())
            },
    {
        let format = match Format::try_from(format_name) {
            Ok(f) => f,
            Err(e) => return Err(e),
        };
        let file = Self::open_segment(format, now_ms);
        let segments: Ghost<Seq<Seq<EntryView>>> = Ghost(Seq::empty().push(Seq::empty()));
        let written: Ghost<Seq<u8>> = Ghost(file.opening@);
        let s = RecordingSession {
            format,
            max_duration_ms,
            segment_start_ms: now_ms,
            segment_empty: true,
            segments,
            written,
        };
        assert(body(format, Seq::<EntryView>::empty()) =~= Seq::<u8>::empty());
        assert(s.written@ =~= opening(format) + body(format, s.segments@.last()));
        Ok((s, file))
    }

    /// How long the current segment has been open at `now_ms` (zero if the
    /// clock went back).
    pub open spec fn elapsed(&self, now_ms: nat) -> nat {
        if now_ms >= self.start_spec() {
            (now_ms - self.start_spec()) as nat
        } else {
            0
        }
    }

    /// Decides the recorder thread's next step: finish once recording is no
    /// longer active; rotate when the segment has been open for at least the
    /// age limit; otherwise drain the buffer.
    pub fn next_step(&self, active: bool, now_ms: u64) -> (r: RecorderStep)
        ensures
            !active ==> r == RecorderStep::Finish,
            active && self.elapsed(now_ms as nat) >= self.max_spec() ==> r == RecorderStep::Rotate,
            active && self.elapsed(now_ms as nat) < self.max_spec() ==> r == RecorderStep::Drain,
    {
        if !active {
            return RecorderStep::Finish;
        }
        let elapsed = if now_ms >= self.segment_start_ms {
            now_ms - self.segment_start_ms
        } else {
            0
        };
        if elapsed >= self.max_duration_ms {
            RecorderStep::Rotate
        } else {
            RecorderStep::Drain
        }
    }

    /// Writes `batch` to the current segment and returns the bytes to append
    /// to its file.
    pub fn write_batch(&mut self, batch: &Vec<RecordEntry>) -> (r: Vec<u8>)
        requires
            old(self).wf(),
            forall|i: int| 0 <= i < batch@.len() ==> #[trigger] batch@[i].texts@.len() == 8,
        ensures
            final(self).wf(),
            final(self).format_spec() == old(self).format_spec(),
            final(self).max_spec() == old(self).max_spec(),
            final(self).start_spec() == old(self).start_spec(),
            final(self).segments() == append_to_last(old(self).segments(), entry_views(batch@)),
            final(self).written() == old(self).written() + r@,
    {
        let ghost segs0 = self.segments@;
        let ghost last0 = segs0.last();
        let mut out: Vec<u8> = Vec::new();
        let mut i: usize = 0;
        while i < batch.len()
            invariant
                i <= batch@.len(),
                self.format == old(self).format,
                self.max_duration_ms == old(self).max_duration_ms,
                self.segment_start_ms == old(self).segment_start_ms,
                self.segments@ == segs0,
                self.written@ == old(self).written@,
                segs0.len() >= 1,
                last0 == segs0.last(),
                old(self).written@ == opening(self.format) + body(self.format, last0),
                self.segment_empty == ((last0 + entry_views(batch@.subrange(0, i as int))).len() == 0),
                old(self).written@ + out@ == opening(self.format) + body(
                    self.format,
                    last0 + entry_views(batch@.subrange(0, i as int)),
                ),
            decreases batch@.len() - i,
        {
            let ghost es = last0 + entry_views(batch@.subrange(0, i as int));
            let ghost es1 = last0 + entry_views(batch@.subrange(0, i + 1));
            let after_first = !self.segment_empty;
            let ghost out0 = out@;
            push_entry(&mut out, self.format, &batch[i], after_first);
            self.segment_empty = false;
            proof {
                assert(entry_views(batch@.subrange(0, i + 1)) =~= entry_views(
                    batch@.subrange(0, i as int),
                ).push(batch@[i as int]@));
                assert(es1 =~= es.push(batch@[i as int]@));
                assert(es1.drop_last() =~= es);
                assert(es1.last() == batch@[i as int]@);
                assert(after_first == (es1.len() > 1));
                let piece = match self.format {
                    Format::Csv => csv_row(batch@[i as int]@),
                    Format::Json => (if after_first {
                        seq![44u8]
                    } else {
                        Seq::empty()
                    }) + json_entry(batch@[i as int]@),
                    Format::Binary => binary_entry(batch@[i as int]@),
                };
                assert(out@ == out0 + piece);
                assert(old(self).written@ + out0 == opening(self.format) + body(self.format, es));
                assert(body(self.format, es1) == body(self.format, es) + piece);
                let w = old(self).written@;
                let o = opening(self.format);
                assert(w + out@ =~= (w + out0) + piece);
                assert((o + body(self.format, es)) + piece =~= o + (body(self.format, es) + piece));
            }
            i = i + 1;
        }
        assert(batch@.subrange(0, batch@.len() as int) =~= batch@);
        let segments: Ghost<Seq<Seq<EntryView>>> = Ghost(
            append_to_last(segs0, entry_views(batch@)),
        );
        let written: Ghost<Seq<u8>> = Ghost(old(self).written@ + out@);
        self.segments = segments;
        self.written = written;
        proof {
            if batch@.len() == 0 {
                assert(last0 + entry_views(batch@) =~= last0);
            }
        }
        out
    }

    /// The file that a rotation at `now_ms` begins: its name and opening
    /// bytes. The session is not changed; the caller opens the file first
    /// and rotates only once that succeeded.
    pub fn next_segment(&self, now_ms: u64) -> (r: SegmentFile)
        ensures
            r.file_name@ == segment_name_spec(now_ms as nat, self.format_spec()),
            r.opening@ == opening(self.format_spec()),
    {
        Self::open_segment(self.format, now_ms)
    }

    /// Ends the current segment and begins a new one at `now_ms`, whose file
    /// holds the opening bytes (written when it was opened). Returns the
    /// bytes that finish the current file, which then holds a complete
    /// document of that segment's entries.
    pub fn rotate(&mut self, now_ms: u64) -> (closing: Vec<u8>)
        requires
            old(self).wf(),
        ensures
            final(self).wf(),
            old(self).written() + closing@ == document(
                old(self).format_spec(),
                old(self).segments().last(),
            ),
            final(self).format_spec() == old(self).format_spec(),
            final(self).max_spec() == old(self).max_spec(),
            final(self).start_spec() == now_ms,
            final(self).segments() == old(self).segments().push(Seq::empty()),
            final(self).written() == opening(old(self).format_spec()),
    {
        let closing = self.closing_bytes();
        let segments: Ghost<Seq<Seq<EntryView>>> = Ghost(self.segments@.push(Seq::empty()));
        let written: Ghost<Seq<u8>> = Ghost(opening(self.format));
        self.segments = segments;
        self.written = written;
        self.segment_start_ms = now_ms;
        self.segment_empty = true;
        assert(body(self.format, Seq::<EntryView>::empty()) =~= Seq::<u8>::empty());
        assert(self.written@ =~= opening(self.format) + body(self.format, self.segments@.last()));
        closing
    }

    /// Keeps the current segment when the next file could not be opened:
    /// its entries and file stay as they are, and the next rotation is due a
    /// full period after `now_ms`.
    pub fn postpone_rotation(&mut self, now_ms: u64)
        requires
            old(self).wf(),
        ensures
            final(self).wf(),
            final(self).format_spec() == old(self).format_spec(),
            final(self).max_spec() == old(self).max_spec(),
            final(self).start_spec() == now_ms,
            final(self).segments() == old(self).segments(),
            final(self).written() == old(self).written(),
    {
        self.segment_start_ms = now_ms;
    }

    fn closing_bytes(&self) -> (r: Vec<u8>)
        requires
            self.wf(),
        ensures
            self.written() + r@ == document(self.format_spec(), self.segments().last()),
    {
        let mut out: Vec<u8> = Vec::new();
        match self.format {
            Format::Json => out.push(93),
            _ => {},
        }
        assert(out@ =~= closing(self.format));
        out
    }

    /// Ends the recording after writing `last`, the final drain of the
    /// recording buffer: returns the bytes to append to the current file,
    /// which then holds a complete document of its segment's entries,
    /// `last` included.
    pub fn finish(self, last: &Vec<RecordEntry>) -> (r: Vec<u8>)
        requires
            self.wf(),
            forall|i: int| 0 <= i < last@.len() ==> #[trigger] last@[i].texts@.len() == 8,
        ensures
            self.written() + r@ == document(
                self.format_spec(),
                self.segments().last() + entry_views(last@),
            ),
    {
        let mut s = self;
        let mut out = s.write_batch(last);
        let mut c = s.closing_bytes();
        let ghost o1 = out@;
        let ghost cv = c@;
        out.append(&mut c);
        assert(s.segments().last() == self.segments().last() + entry_views(last@));
        assert(self.written() + out@ =~= (self.written() + o1) + cv);
        out
    }
}

} // verus!
