//! The engine's stated guarantees, proved once and for all: what survives a
//! round trip through the codec, that header names never distinguish case,
//! and how bodies resolve.

use crate::codec::{
    spec_decode_request, spec_decode_response, spec_encode_request, spec_encode_response,
    spec_method_from, spec_parse_request_line, spec_request_body, spec_response_body,
    spec_version_from,
};
use crate::common::{
    method_chars, status_reason_chars, version_chars, HttpMethod, HttpStatus, HttpVersion,
    RequestView, ResponseView, SpecStep,
};
use crate::digits::{dec_chars, lemma_dec_chars_val};
use crate::headers::{
    cl_key, key_first_at, lemma_has_first, lemma_headers_bytes_concat, spec_content_length,
    spec_has_key, spec_header_line, spec_headers_bytes, spec_insert, spec_lookup,
    spec_parse_header_line, spec_read_headers, spec_trim_ows, wf_headers,
};
use crate::text::{
    is_first_at, lemma_ascii_bytes, lemma_find_some, lower, spec_take_line, LineStep, COLON, CR,
    HTAB, LF, SP,
};
use vstd::prelude::*;
use vstd::utf8::encode_utf8;

verus! {

// ------------------------------------------------------------------
// What the wire can carry losslessly
// ------------------------------------------------------------------
/// A path the wire carries losslessly: printable ASCII without spaces.
pub open spec fn path_ok(p: Seq<char>) -> bool {
    forall|i: int| 0 <= i < p.len() ==> '!' <= #[trigger] p[i] && p[i] <= '~'
}

/// A header name the wire carries losslessly: printable ASCII, no space,
/// and no colon, which would end the name early.
pub open spec fn header_name_ok(k: Seq<char>) -> bool {
    forall|i: int| 0 <= i < k.len() ==> '!' <= #[trigger] k[i] && k[i] <= '~' && k[i] != ':'
}

/// A header value the wire carries losslessly: ASCII text or tabs, with no
/// leading whitespace, which decoding would trim away.
pub open spec fn header_value_ok(v: Seq<char>) -> bool {
    &&& forall|i: int|
        0 <= i < v.len() ==> (' ' <= #[trigger] v[i] && v[i] <= '~') || v[i] == '\t'
    &&& v.len() > 0 ==> v[0] != ' ' && v[0] != '\t'
}

/// Every header of the collection is wire-safe.
pub open spec fn headers_wire_ok(h: Seq<(Seq<char>, Seq<char>)>) -> bool {
    forall|i: int|
        0 <= i < h.len() ==> header_name_ok(#[trigger] h[i].0) && header_value_ok(h[i].1)
}

// ------------------------------------------------------------------
// Taking back one encoded line
// ------------------------------------------------------------------
/// Taking a line from a buffer that holds `content`, CRLF, and whatever
/// follows yields exactly `content`.
pub proof fn lemma_take_line_exact(s: Seq<u8>, from: int, content: Seq<u8>)
    requires
        0 <= from,
        from + content.len() + 2 <= s.len(),
        s.subrange(from, from + content.len()) == content,
        s[from + content.len()] == CR,
        s[from + content.len() + 1] == LF,
        forall|i: int| 0 <= i < content.len() ==> #[trigger] content[i] != LF,
    ensures
        spec_take_line(s, from) == LineStep::Line(content, from + content.len() + 2),
{
    let i = from + content.len() + 1;
    assert(is_first_at(s, from, LF, i)) by {
        assert forall|k: int| from <= k < i implies s[k] != LF by {
            if k < from + content.len() {
                assert(s[k] == content[k - from]);
            }
        }
    }
    lemma_find_some(s, from, LF, i);
    assert(s.subrange(from, i - 1) == content);
}

// ------------------------------------------------------------------
// Reading back one encoded header line
// ------------------------------------------------------------------
/// Parsing the encoding of a wire-safe header whose name is already
/// lower-cased gives the header back; and no byte of that line content is
/// a line feed.
pub proof fn lemma_parse_header_line_of(k: Seq<char>, v: Seq<char>)
    requires
        header_name_ok(k),
        header_value_ok(v),
        k == lower(k),
    ensures
        spec_parse_header_line(encode_utf8(k) + seq![COLON, SP] + encode_utf8(v)) == Some((k, v)),
        forall|i: int|
            0 <= i < (encode_utf8(k) + seq![COLON, SP] + encode_utf8(v)).len() ==> (encode_utf8(k)
                + seq![COLON, SP] + encode_utf8(v))[i] != LF,
{
    let kb = encode_utf8(k);
    let vb = encode_utf8(v);
    let c = kb + seq![COLON, SP] + vb;
    lemma_ascii_bytes(k);
    lemma_ascii_bytes(v);
    assert(is_first_at(c, 0, COLON, kb.len() as int)) by {
        assert(c[kb.len() as int] == COLON);
        assert forall|i: int| 0 <= i < kb.len() implies c[i] != COLON by {
            assert(c[i] == kb[i] && kb[i] == k[i] as u8);
            assert(k[i] != ':');
        }
    }
    lemma_find_some(c, 0, COLON, kb.len() as int);
    assert(c.subrange(0, kb.len() as int) =~= kb);
    let after = c.subrange(kb.len() as int + 1, c.len() as int);
    assert(after =~= seq![SP] + vb);
    assert(after[0] == SP);
    assert(after.drop_first() =~= vb);
    assert(spec_trim_ows(vb) == vb) by {
        if v.len() > 0 {
            assert(vb[0] == v[0] as u8);
            assert(vb[0] != SP && vb[0] != HTAB);
        }
    }
    assert(spec_trim_ows(after) == spec_trim_ows(vb));
    vstd::utf8::encode_utf8_valid_utf8(k);
    vstd::utf8::encode_utf8_valid_utf8(v);
    vstd::utf8::encode_utf8_decode_utf8(k);
    vstd::utf8::encode_utf8_decode_utf8(v);
    assert(spec_parse_header_line(c) == Some((lower(k), v)));
    assert forall|i: int| 0 <= i < c.len() implies c[i] != LF by {
        if i < kb.len() {
            assert(c[i] == k[i] as u8);
        } else if i == kb.len() {
            assert(c[i] == COLON);
        } else if i == kb.len() + 1 {
            assert(c[i] == SP);
        } else {
            assert(c[i] == vb[i - kb.len() - 2]);
            assert(c[i] == v[i - kb.len() - 2] as u8);
        }
    }
}

// ------------------------------------------------------------------
// Inserting a run of fresh, distinct headers
// ------------------------------------------------------------------
/// Inserting a key that is not present appends.
pub proof fn lemma_insert_absent(h: Seq<(Seq<char>, Seq<char>)>, k: Seq<char>, v: Seq<char>)
    requires
        forall|j: int| 0 <= j < h.len() ==> (#[trigger] h[j].0) != k,
    ensures
        spec_insert(h, k, v) == h.push((k, v)),
{
    if exists|i: int| key_first_at(h, k, i) {
        let i = choose|i: int| key_first_at(h, k, i);
        assert(h[i].0 != k);
    }
}

/// The headers one by one inserted into `acc`, first entry first.
pub open spec fn fold_inserts(
    acc: Seq<(Seq<char>, Seq<char>)>,
    entries: Seq<(Seq<char>, Seq<char>)>,
) -> Seq<(Seq<char>, Seq<char>)>
    decreases entries.len(),
{
    if entries.len() == 0 {
        acc
    } else {
        fold_inserts(spec_insert(acc, entries[0].0, entries[0].1), entries.drop_first())
    }
}

/// Inserting entries whose keys are distinct and all new just appends them.
pub proof fn lemma_fold_inserts_append(
    acc: Seq<(Seq<char>, Seq<char>)>,
    entries: Seq<(Seq<char>, Seq<char>)>,
)
    requires
        forall|i: int, j: int|
            0 <= i < j < entries.len() ==> (#[trigger] entries[i].0) != (#[trigger] entries[j].0),
        forall|a: int, b: int|
            0 <= a < acc.len() && 0 <= b < entries.len() ==> (#[trigger] acc[a].0) != (
            #[trigger] entries[b].0),
    ensures
        fold_inserts(acc, entries) == acc + entries,
    decreases entries.len(),
{
    if entries.len() == 0 {
        assert(acc + entries =~= acc);
    } else {
        let e = entries[0];
        let rest = entries.drop_first();
        assert forall|j: int| 0 <= j < acc.len() implies (#[trigger] acc[j].0) != e.0 by {}
        lemma_insert_absent(acc, e.0, e.1);
        let acc2 = acc.push(e);
        assert forall|a: int, b: int|
            0 <= a < acc2.len() && 0 <= b < rest.len() implies (#[trigger] acc2[a].0) != (
        #[trigger] rest[b].0) by {
            assert(rest[b] == entries[b + 1]);
            if a < acc.len() {
                assert(acc2[a] == acc[a]);
            } else {
                assert(acc2[a] == entries[0]);
            }
        }
        assert forall|i: int, j: int|
            0 <= i < j < rest.len() implies (#[trigger] rest[i].0) != (#[trigger] rest[j].0) by {
            assert(rest[i] == entries[i + 1]);
            assert(rest[j] == entries[j + 1]);
        }
        lemma_fold_inserts_append(acc2, rest);
        assert(acc2 + rest =~= acc + entries);
    }
}

// ------------------------------------------------------------------
// Reading back an encoded header block
// ------------------------------------------------------------------
/// Reading a header block from a buffer that holds its encoding, the blank
/// line, and whatever follows inserts exactly those headers and stops just
/// past the blank line.
pub proof fn lemma_read_headers_block(
    acc: Seq<(Seq<char>, Seq<char>)>,
    entries: Seq<(Seq<char>, Seq<char>)>,
    s: Seq<u8>,
    from: int,
    eof: bool,
)
    requires
        0 <= from,
        from + spec_headers_bytes(entries).len() + 2 <= s.len(),
        s.subrange(from, from + spec_headers_bytes(entries).len()) == spec_headers_bytes(entries),
        s[from + spec_headers_bytes(entries).len()] == CR,
        s[from + spec_headers_bytes(entries).len() + 1] == LF,
        headers_wire_ok(entries),
        forall|i: int| 0 <= i < entries.len() ==> (#[trigger] entries[i].0) == lower(entries[i].0),
    ensures
        spec_read_headers(acc, s, from, eof) == SpecStep::<Seq<(Seq<char>, Seq<char>)>>::Done(
            fold_inserts(acc, entries),
            from + spec_headers_bytes(entries).len() + 2,
        ),
    decreases entries.len(),
{
    let hb = spec_headers_bytes(entries);
    if entries.len() == 0 {
        assert(hb =~= Seq::<u8>::empty());
        assert(s.subrange(from, from) =~= Seq::<u8>::empty());
        lemma_take_line_exact(s, from, Seq::empty());
        assert(spec_take_line(s, from) == LineStep::Line(Seq::<u8>::empty(), from + 2));
    } else {
        let e = entries[0];
        let rest = entries.drop_first();
        let kb = encode_utf8(e.0);
        let vb = encode_utf8(e.1);
        let c0 = kb + seq![COLON, SP] + vb;
        let line0 = spec_header_line(e.0, e.1);
        let hbr = spec_headers_bytes(rest);
        assert(hb == line0 + hbr);
        assert(line0 =~= c0 + seq![CR, LF]);
        lemma_parse_header_line_of(e.0, e.1);
        assert(s.subrange(from, from + c0.len()) =~= c0) by {
            assert forall|i: int| 0 <= i < c0.len() implies s[from + i] == c0[i] by {
                assert(s[from + i] == hb[i]);
                assert(hb[i] == line0[i]);
            }
        }
        assert(s[from + c0.len()] == CR) by {
            assert(s[from + c0.len()] == hb[c0.len() as int]);
            assert(hb[c0.len() as int] == line0[c0.len() as int]);
        }
        assert(s[from + c0.len() + 1] == LF) by {
            assert(s[from + c0.len() + 1] == hb[c0.len() as int + 1]);
            assert(hb[c0.len() as int + 1] == line0[c0.len() as int + 1]);
        }
        lemma_take_line_exact(s, from, c0);
        assert(c0.len() > 0);
        let from2 = from + c0.len() + 2;
        assert(from2 == from + line0.len());
        let acc2 = spec_insert(acc, e.0, e.1);
        assert(s.subrange(from2, from2 + hbr.len()) =~= hbr) by {
            assert forall|i: int| 0 <= i < hbr.len() implies s[from2 + i] == hbr[i] by {
                assert(s[from2 + i] == hb[line0.len() + i]);
                assert(hb[line0.len() + i] == hbr[i]);
            }
        }
        assert(s[from2 + hbr.len()] == CR);
        assert(s[from2 + hbr.len() + 1] == LF);
        assert(headers_wire_ok(rest) && forall|i: int|
            0 <= i < rest.len() ==> (#[trigger] rest[i].0) == lower(rest[i].0)) by {
            assert(forall|i: int| 0 <= i < rest.len() ==> #[trigger] rest[i] == entries[i + 1]);
        }
        lemma_read_headers_block(acc2, rest, s, from2, eof);
        assert(spec_read_headers(acc, s, from, eof) == spec_read_headers(acc2, s, from2, eof));
        assert(fold_inserts(acc, entries) == fold_inserts(acc2, rest));
    }
}

// ------------------------------------------------------------------
// Reading back an encoded request line
// ------------------------------------------------------------------
/// The characters of a supported token are printable ASCII.
pub proof fn lemma_token_chars(m: HttpMethod, v: HttpVersion)
    ensures
        forall|i: int|
            0 <= i < method_chars(m).len() ==> '!' <= #[trigger] method_chars(m)[i]
                && method_chars(m)[i] <= '~',
        forall|i: int|
            0 <= i < version_chars(v).len() ==> '!' <= #[trigger] version_chars(v)[i]
                && version_chars(v)[i] <= '~',
{
    let mc = method_chars(m);
    match m {
        HttpMethod::GET => {
            assert(mc[0] == 'G' && mc[1] == 'E' && mc[2] == 'T');
        },
        HttpMethod::POST => {
            assert(mc[0] == 'P' && mc[1] == 'O' && mc[2] == 'S' && mc[3] == 'T');
        },
    }
    let vc = version_chars(v);
    match v {
        HttpVersion::HTTP1_0 => {
            assert(vc[0] == 'H' && vc[1] == 'T' && vc[2] == 'T' && vc[3] == 'P' && vc[4] == '/'
                && vc[5] == '1' && vc[6] == '.' && vc[7] == '0');
        },
        HttpVersion::HTTP1_1 => {
            assert(vc[0] == 'H' && vc[1] == 'T' && vc[2] == 'T' && vc[3] == 'P' && vc[4] == '/'
                && vc[5] == '1' && vc[6] == '.' && vc[7] == '1');
        },
        HttpVersion::UNSUPPORTED => {
            assert(vc[0] == 'U' && vc[1] == 'N' && vc[2] == 'S' && vc[3] == 'U' && vc[4] == 'P'
                && vc[5] == 'P' && vc[6] == 'O' && vc[7] == 'R' && vc[8] == 'T' && vc[9] == 'E'
                && vc[10] == 'D');
        },
    }
}

/// The two supported version tokens differ in their last byte.
pub proof fn lemma_version_tokens_distinct()
    ensures
        encode_utf8(version_chars(HttpVersion::HTTP1_0)) != encode_utf8(
            version_chars(HttpVersion::HTTP1_1),
        ),
{
    lemma_token_chars(HttpMethod::GET, HttpVersion::HTTP1_0);
    lemma_token_chars(HttpMethod::GET, HttpVersion::HTTP1_1);
    lemma_ascii_bytes(version_chars(HttpVersion::HTTP1_0));
    lemma_ascii_bytes(version_chars(HttpVersion::HTTP1_1));
    let b0 = encode_utf8(version_chars(HttpVersion::HTTP1_0));
    let b1 = encode_utf8(version_chars(HttpVersion::HTTP1_1));
    assert(b0[7] == '0' as u8);
    assert(b1[7] == '1' as u8);
}

/// Parsing the encoding of a request line with a wire-safe path and a
/// supported version gives the pieces back; and no byte of it is a line
/// feed.
pub proof fn lemma_parse_request_line_of(m: HttpMethod, p: Seq<char>, ver: HttpVersion)
    requires
        path_ok(p),
        ver != HttpVersion::UNSUPPORTED,
    ensures
        spec_parse_request_line(
            encode_utf8(method_chars(m)) + seq![SP] + encode_utf8(p) + seq![SP] + encode_utf8(
                version_chars(ver),
            ),
        ) == Some((m, p, ver)),
        forall|i: int|
            0 <= i < (encode_utf8(method_chars(m)) + seq![SP] + encode_utf8(p) + seq![SP]
                + encode_utf8(version_chars(ver))).len() ==> (encode_utf8(method_chars(m))
                + seq![SP] + encode_utf8(p) + seq![SP] + encode_utf8(version_chars(ver)))[i] != LF,
{
    let mb = encode_utf8(method_chars(m));
    let pb = encode_utf8(p);
    let vb = encode_utf8(version_chars(ver));
    let c = mb + seq![SP] + pb + seq![SP] + vb;
    lemma_token_chars(m, ver);
    lemma_ascii_bytes(method_chars(m));
    lemma_ascii_bytes(p);
    lemma_ascii_bytes(version_chars(ver));
    let a = mb.len() as int;
    let b = mb.len() + 1 + pb.len() as int;
    assert(is_first_at(c, 0, SP, a)) by {
        assert(c[a] == SP);
        assert forall|i: int| 0 <= i < a implies c[i] != SP by {
            assert(c[i] == method_chars(m)[i] as u8);
        }
    }
    lemma_find_some(c, 0, SP, a);
    assert(is_first_at(c, a + 1, SP, b)) by {
        assert(c[b] == SP);
        assert forall|i: int| a + 1 <= i < b implies c[i] != SP by {
            assert(c[i] == pb[i - a - 1]);
            assert(c[i] == p[i - a - 1] as u8);
        }
    }
    lemma_find_some(c, a + 1, SP, b);
    assert(c.subrange(0, a) =~= mb);
    assert(c.subrange(a + 1, b) =~= pb);
    assert(c.subrange(b + 1, c.len() as int) =~= vb);
    assert(spec_method_from(mb) == Some(m)) by {
        match m {
            HttpMethod::GET => {},
            HttpMethod::POST => {
                lemma_token_chars(HttpMethod::GET, ver);
                lemma_ascii_bytes(method_chars(HttpMethod::GET));
                assert(encode_utf8(method_chars(HttpMethod::GET)).len() == 3);
                assert(mb.len() == 4);
            },
        }
    }
    vstd::utf8::encode_utf8_valid_utf8(p);
    vstd::utf8::encode_utf8_decode_utf8(p);
    assert(spec_version_from(vb) == ver) by {
        lemma_version_tokens_distinct();
    }
    assert forall|i: int| 0 <= i < c.len() implies c[i] != LF by {
        if i < a {
            assert(c[i] == method_chars(m)[i] as u8);
        } else if i == a || i == b {
            assert(c[i] == SP);
        } else if i < b {
            assert(c[i] == p[i - a - 1] as u8);
        } else {
            assert(c[i] == vb[i - b - 1]);
            assert(c[i] == version_chars(ver)[i - b - 1] as u8);
        }
    }
}

// ------------------------------------------------------------------
// Reading back an encoded status line
// ------------------------------------------------------------------
/// The characters of a reason phrase are ASCII text.
pub proof fn lemma_reason_chars(st: HttpStatus)
    ensures
        forall|i: int|
            0 <= i < status_reason_chars(st).len() ==> ' ' <= #[trigger] status_reason_chars(
                st,
            )[i] && status_reason_chars(st)[i] <= '~',
{
    let rc = status_reason_chars(st);
    match st {
        HttpStatus::OK => {
            assert(rc[0] == 'O' && rc[1] == 'K');
        },
        HttpStatus::NotFound => {
            assert(rc[0] == 'N' && rc[1] == 'o' && rc[2] == 't' && rc[3] == ' ' && rc[4] == 'F'
                && rc[5] == 'o' && rc[6] == 'u' && rc[7] == 'n' && rc[8] == 'd');
        },
        HttpStatus::Invalid => {},
    }
}

/// The numeric tokens of the two speakable statuses are distinct, and a
/// token names its own status.
pub proof fn lemma_status_tokens(st: HttpStatus)
    requires
        st != HttpStatus::Invalid,
    ensures
        crate::codec::spec_status_from(
            encode_utf8(dec_chars(crate::common::spec_status_code(st) as nat)),
        ) == st,
{
    crate::digits::lemma_status_code_chars();
    lemma_ascii_bytes(dec_chars(200));
    lemma_ascii_bytes(dec_chars(404));
    assert(dec_chars(200)[0] == '2' && dec_chars(404)[0] == '4');
    assert(encode_utf8(dec_chars(200))[0] == '2' as u8);
    assert(encode_utf8(dec_chars(404))[0] == '4' as u8);
}

/// Parsing the encoding of a status line with a supported version and a
/// speakable status gives both back; and no byte of it is a line feed.
pub proof fn lemma_parse_status_line_of(ver: HttpVersion, st: HttpStatus)
    requires
        ver != HttpVersion::UNSUPPORTED,
        st != HttpStatus::Invalid,
    ensures
        crate::codec::spec_parse_status_line(
            encode_utf8(version_chars(ver)) + seq![SP] + encode_utf8(
                dec_chars(crate::common::spec_status_code(st) as nat),
            ) + seq![SP] + encode_utf8(status_reason_chars(st)),
        ) == Some((ver, st)),
        forall|i: int|
            0 <= i < (encode_utf8(version_chars(ver)) + seq![SP] + encode_utf8(
                dec_chars(crate::common::spec_status_code(st) as nat),
            ) + seq![SP] + encode_utf8(status_reason_chars(st))).len() ==> (encode_utf8(
                version_chars(ver),
            ) + seq![SP] + encode_utf8(dec_chars(crate::common::spec_status_code(st) as nat))
                + seq![SP] + encode_utf8(status_reason_chars(st)))[i] != LF,
{
    let sc = dec_chars(crate::common::spec_status_code(st) as nat);
    let vb = encode_utf8(version_chars(ver));
    let sb = encode_utf8(sc);
    let rb = encode_utf8(status_reason_chars(st));
    let c = vb + seq![SP] + sb + seq![SP] + rb;
    lemma_token_chars(HttpMethod::GET, ver);
    lemma_reason_chars(st);
    crate::digits::lemma_dec_chars_val(crate::common::spec_status_code(st) as nat);
    lemma_ascii_bytes(version_chars(ver));
    lemma_ascii_bytes(sc);
    lemma_ascii_bytes(status_reason_chars(st));
    let a = vb.len() as int;
    let b = vb.len() + 1 + sb.len() as int;
    assert(is_first_at(c, 0, SP, a)) by {
        assert(c[a] == SP);
        assert forall|i: int| 0 <= i < a implies c[i] != SP by {
            assert(c[i] == version_chars(ver)[i] as u8);
        }
    }
    lemma_find_some(c, 0, SP, a);
    assert(is_first_at(c, a + 1, SP, b)) by {
        assert(c[b] == SP);
        assert forall|i: int| a + 1 <= i < b implies c[i] != SP by {
            assert(c[i] == sb[i - a - 1]);
            assert(c[i] == sc[i - a - 1] as u8);
            assert(crate::digits::is_digit(sc[i - a - 1]));
        }
    }
    lemma_find_some(c, a + 1, SP, b);
    assert(c.subrange(0, a) =~= vb);
    assert(c.subrange(a + 1, b) =~= sb);
    assert(spec_version_from(vb) == ver) by {
        lemma_version_tokens_distinct();
    }
    lemma_status_tokens(st);
    assert forall|i: int| 0 <= i < c.len() implies c[i] != LF by {
        if i < a {
            assert(c[i] == version_chars(ver)[i] as u8);
        } else if i == a || i == b {
            assert(c[i] == SP);
        } else if i < b {
            assert(c[i] == sc[i - a - 1] as u8);
            assert(crate::digits::is_digit(sc[i - a - 1]));
        } else {
            assert(c[i] == rb[i - b - 1]);
            assert(c[i] == status_reason_chars(st)[i - b - 1] as u8);
        }
    }
}

// ------------------------------------------------------------------
// The automatic content-length header is itself wire-safe
// ------------------------------------------------------------------
/// The `content-length` name and a numeral value are wire-safe, and the
/// name is its own lower-casing.
pub proof fn lemma_cl_header_ok(n: nat)
    ensures
        header_name_ok(cl_key()),
        header_value_ok(dec_chars(n)),
        cl_key() == lower(cl_key()),
{
    let ck = cl_key();
    assert(ck[0] == 'c' && ck[1] == 'o' && ck[2] == 'n' && ck[3] == 't' && ck[4] == 'e' && ck[5]
        == 'n' && ck[6] == 't' && ck[7] == '-' && ck[8] == 'l' && ck[9] == 'e' && ck[10] == 'n'
        && ck[11] == 'g' && ck[12] == 't' && ck[13] == 'h');
    assert(lower(ck) =~= ck);
    lemma_dec_chars_val(n);
    let d = dec_chars(n);
    assert forall|i: int| 0 <= i < d.len() implies (' ' <= #[trigger] d[i] && d[i] <= '~')
        || d[i] == '\t' by {
        assert(crate::digits::is_digit(d[i]));
    }
    assert(crate::digits::is_digit(d[0]));
}

// ------------------------------------------------------------------
// The round trip
// ------------------------------------------------------------------
/// Round trip: a request whose version is supported, whose path and headers
/// are wire-safe and well-formed, and which does not set `content-length`
/// itself, is decoded back from its own encoding exactly, the headers
/// extended by the computed `content-length`, with every encoded byte
/// consumed — whether or not the stream has ended.
#[verifier::rlimit(100)]
pub proof fn lemma_request_round_trip(r: RequestView, eof: bool)
    requires
        r.version != HttpVersion::UNSUPPORTED,
        path_ok(r.path),
        wf_headers(r.headers),
        headers_wire_ok(r.headers),
        !spec_has_key(r.headers, cl_key()),
        r.body.len() <= usize::MAX,
    ensures
        spec_decode_request(spec_encode_request(r), eof) == SpecStep::<RequestView>::Done(
            RequestView {
                headers: spec_insert(r.headers, cl_key(), dec_chars(r.body.len())),
                ..r
            },
            spec_encode_request(r).len() as int,
        ),
{
    let n = r.body.len();
    let mb = encode_utf8(method_chars(r.method));
    let pb = encode_utf8(r.path);
    let vb = encode_utf8(version_chars(r.version));
    let c1 = mb + seq![SP] + pb + seq![SP] + vb;
    let hcl = (cl_key(), dec_chars(n));
    let entries = r.headers.push(hcl);
    let hb = spec_headers_bytes(entries);
    let s = spec_encode_request(r);

    lemma_cl_header_ok(n);
    lemma_dec_chars_val(n);

    // the key of the automatic header is fresh
    assert forall|j: int| 0 <= j < r.headers.len() implies (#[trigger] r.headers[j].0)
        != cl_key() by {
        if r.headers[j].0 == cl_key() {
            lemma_has_first(r.headers, cl_key(), j);
        }
    }

    // the caller's header bytes plus the automatic line are one block
    lemma_headers_bytes_concat(r.headers, seq![hcl]);
    assert(entries =~= r.headers + seq![hcl]);
    assert(seq![hcl].drop_first() =~= Seq::<(Seq<char>, Seq<char>)>::empty());
    assert(spec_headers_bytes(Seq::<(Seq<char>, Seq<char>)>::empty()) == Seq::<u8>::empty());
    assert(spec_headers_bytes(seq![hcl]) =~= spec_header_line(cl_key(), dec_chars(n)));
    assert(hb =~= spec_headers_bytes(r.headers) + spec_header_line(cl_key(), dec_chars(n)));
    assert(s =~= c1 + seq![CR, LF] + hb + seq![CR, LF] + r.body);

    // the request line comes back
    lemma_parse_request_line_of(r.method, r.path, r.version);
    assert(s.subrange(0, c1.len() as int) =~= c1);
    assert(s[c1.len() as int] == CR);
    assert(s[c1.len() as int + 1] == LF);
    lemma_take_line_exact(s, 0, c1);
    let from1 = c1.len() as int + 2;

    // the header block comes back
    assert(s.subrange(from1, from1 + hb.len()) =~= hb);
    assert(s[from1 + hb.len()] == CR);
    assert(s[from1 + hb.len() + 1] == LF);
    assert(headers_wire_ok(entries)) by {
        assert(forall|i: int|
            0 <= i < r.headers.len() ==> #[trigger] entries[i] == r.headers[i]);
        assert(entries[r.headers.len() as int] == hcl);
    }
    assert(forall|i: int|
        0 <= i < entries.len() ==> (#[trigger] entries[i].0) == lower(entries[i].0)) by {
        assert(forall|i: int|
            0 <= i < r.headers.len() ==> #[trigger] entries[i] == r.headers[i]);
        assert(entries[r.headers.len() as int] == hcl);
    }
    lemma_read_headers_block(Seq::empty(), entries, s, from1, eof);
    let from2 = from1 + hb.len() + 2;

    // what was read is exactly the extended header list
    assert forall|i: int, j: int| 0 <= i < j < entries.len() implies (#[trigger] entries[i].0)
        != (#[trigger] entries[j].0) by {
        if j < r.headers.len() {
            assert(entries[i] == r.headers[i] && entries[j] == r.headers[j]);
        } else {
            assert(entries[i] == r.headers[i] && entries[j] == hcl);
        }
    }
    lemma_fold_inserts_append(Seq::empty(), entries);
    assert(fold_inserts(Seq::empty(), entries) =~= entries);

    // the declared length is the body length
    assert(key_first_at(entries, cl_key(), r.headers.len() as int));
    assert(spec_lookup(entries, cl_key()) == Some(dec_chars(n))) by {
        crate::headers::lemma_key_first_unique(
            entries,
            cl_key(),
            r.headers.len() as int,
            choose|i: int| key_first_at(entries, cl_key(), i),
        );
    }
    assert(spec_content_length(entries) == Some(n as int));

    // the body comes back
    assert(from2 + n == s.len());
    if n == 0 {
        assert(spec_request_body(entries, s, from2, eof) == SpecStep::<Seq<u8>>::Done(
            Seq::empty(),
            from2,
        ));
        assert(r.body =~= Seq::<u8>::empty());
    } else {
        assert(s.subrange(from2, from2 + n) =~= r.body);
        assert(spec_request_body(entries, s, from2, eof) == SpecStep::<Seq<u8>>::Done(
            r.body,
            s.len() as int,
        ));
    }

    // assemble
    lemma_insert_absent(r.headers, cl_key(), dec_chars(n));
    assert(spec_decode_request(s, eof) =~~= SpecStep::<RequestView>::Done(
        RequestView { headers: spec_insert(r.headers, cl_key(), dec_chars(n)), ..r },
        s.len() as int,
    ));
}

/// Round trip for responses: a response with a supported version, a
/// speakable status, wire-safe well-formed headers, and no `content-length`
/// of its own is decoded back from its own encoding exactly, the headers
/// extended by the computed `content-length`, with every byte consumed.
#[verifier::rlimit(100)]
pub proof fn lemma_response_round_trip(r: ResponseView, eof: bool)
    requires
        r.version != HttpVersion::UNSUPPORTED,
        r.status != HttpStatus::Invalid,
        wf_headers(r.headers),
        headers_wire_ok(r.headers),
        !spec_has_key(r.headers, cl_key()),
        r.body.len() <= usize::MAX,
    ensures
        spec_decode_response(spec_encode_response(r), eof) == SpecStep::<ResponseView>::Done(
            ResponseView {
                headers: spec_insert(r.headers, cl_key(), dec_chars(r.body.len())),
                ..r
            },
            spec_encode_response(r).len() as int,
        ),
{
    let n = r.body.len();
    let vb = encode_utf8(version_chars(r.version));
    let sb = encode_utf8(dec_chars(crate::common::spec_status_code(r.status) as nat));
    let rb = encode_utf8(status_reason_chars(r.status));
    let c1 = vb + seq![SP] + sb + seq![SP] + rb;
    let hcl = (cl_key(), dec_chars(n));
    let entries = r.headers.push(hcl);
    let hb = spec_headers_bytes(entries);
    let s = spec_encode_response(r);

    lemma_cl_header_ok(n);
    lemma_dec_chars_val(n);

    // the key of the automatic header is fresh
    assert forall|j: int| 0 <= j < r.headers.len() implies (#[trigger] r.headers[j].0)
        != cl_key() by {
        if r.headers[j].0 == cl_key() {
            lemma_has_first(r.headers, cl_key(), j);
        }
    }

    // the caller's header bytes plus the automatic line are one block
    lemma_headers_bytes_concat(r.headers, seq![hcl]);
    assert(entries =~= r.headers + seq![hcl]);
    assert(seq![hcl].drop_first() =~= Seq::<(Seq<char>, Seq<char>)>::empty());
    assert(spec_headers_bytes(Seq::<(Seq<char>, Seq<char>)>::empty()) == Seq::<u8>::empty());
    assert(spec_headers_bytes(seq![hcl]) =~= spec_header_line(cl_key(), dec_chars(n)));
    assert(hb =~= spec_headers_bytes(r.headers) + spec_header_line(cl_key(), dec_chars(n)));
    assert(s =~= c1 + seq![CR, LF] + hb + seq![CR, LF] + r.body);

    // the status line comes back
    lemma_parse_status_line_of(r.version, r.status);
    assert(s.subrange(0, c1.len() as int) =~= c1);
    assert(s[c1.len() as int] == CR);
    assert(s[c1.len() as int + 1] == LF);
    lemma_take_line_exact(s, 0, c1);
    let from1 = c1.len() as int + 2;

    // the header block comes back
    assert(s.subrange(from1, from1 + hb.len()) =~= hb);
    assert(s[from1 + hb.len()] == CR);
    assert(s[from1 + hb.len() + 1] == LF);
    assert(headers_wire_ok(entries)) by {
        assert(forall|i: int|
            0 <= i < r.headers.len() ==> #[trigger] entries[i] == r.headers[i]);
        assert(entries[r.headers.len() as int] == hcl);
    }
    assert(forall|i: int|
        0 <= i < entries.len() ==> (#[trigger] entries[i].0) == lower(entries[i].0)) by {
        assert(forall|i: int|
            0 <= i < r.headers.len() ==> #[trigger] entries[i] == r.headers[i]);
        assert(entries[r.headers.len() as int] == hcl);
    }
    lemma_read_headers_block(Seq::empty(), entries, s, from1, eof);
    let from2 = from1 + hb.len() + 2;

    // what was read is exactly the extended header list
    assert forall|i: int, j: int| 0 <= i < j < entries.len() implies (#[trigger] entries[i].0)
        != (#[trigger] entries[j].0) by {
        if j < r.headers.len() {
            assert(entries[i] == r.headers[i] && entries[j] == r.headers[j]);
        } else {
            assert(entries[i] == r.headers[i] && entries[j] == hcl);
        }
    }
    lemma_fold_inserts_append(Seq::empty(), entries);
    assert(fold_inserts(Seq::empty(), entries) =~= entries);

    // the declared length is the body length
    assert(key_first_at(entries, cl_key(), r.headers.len() as int));
    assert(spec_lookup(entries, cl_key()) == Some(dec_chars(n))) by {
        crate::headers::lemma_key_first_unique(
            entries,
            cl_key(),
            r.headers.len() as int,
            choose|i: int| key_first_at(entries, cl_key(), i),
        );
    }
    assert(spec_content_length(entries) == Some(n as int));

    // the body comes back
    assert(from2 + n == s.len());
    if n == 0 {
        assert(spec_response_body(entries, s, from2, eof) == SpecStep::<Seq<u8>>::Done(
            Seq::empty(),
            from2,
        ));
        assert(r.body =~= Seq::<u8>::empty());
    } else {
        assert(s.subrange(from2, from2 + n) =~= r.body);
        assert(spec_response_body(entries, s, from2, eof) == SpecStep::<Seq<u8>>::Done(
            r.body,
            s.len() as int,
        ));
    }

    // assemble
    lemma_insert_absent(r.headers, cl_key(), dec_chars(n));
    assert(spec_decode_response(s, eof) =~~= SpecStep::<ResponseView>::Done(
        ResponseView { headers: spec_insert(r.headers, cl_key(), dec_chars(n)), ..r },
        s.len() as int,
    ));
}

// ------------------------------------------------------------------
// Header case-insensitivity
// ------------------------------------------------------------------
/// Two names with one lower-casing reach one entry: what was inserted under
/// the first is read back under the second.
pub proof fn lemma_header_case_insensitive(
    h: Seq<(Seq<char>, Seq<char>)>,
    n1: Seq<char>,
    n2: Seq<char>,
    v: Seq<char>,
)
    requires
        lower(n1) == lower(n2),
    ensures
        spec_lookup(spec_insert(h, lower(n1), v), lower(n2)) == Some(v),
{
    let k = lower(n1);
    let h2 = spec_insert(h, k, v);
    if exists|i: int| key_first_at(h, k, i) {
        let i = choose|i: int| key_first_at(h, k, i);
        assert(h2 == h.update(i, (k, v)));
        assert(key_first_at(h2, k, i)) by {
            assert(forall|j: int| 0 <= j < i ==> h2[j] == h[j]);
        }
        crate::headers::lemma_key_first_unique(h2, k, i, choose|j: int| key_first_at(h2, k, j));
    } else {
        assert forall|j: int| 0 <= j < h.len() implies (#[trigger] h[j].0) != k by {
            if h[j].0 == k {
                lemma_has_first(h, k, j);
            }
        }
        assert(h2 == h.push((k, v)));
        assert(key_first_at(h2, k, h.len() as int));
        crate::headers::lemma_key_first_unique(
            h2,
            k,
            h.len() as int,
            choose|j: int| key_first_at(h2, k, j),
        );
    }
}

/// Inserting under a second casing of a present name overwrites: the
/// collection does not grow.
pub proof fn lemma_insert_overwrites(
    h: Seq<(Seq<char>, Seq<char>)>,
    n1: Seq<char>,
    n2: Seq<char>,
    v1: Seq<char>,
    v2: Seq<char>,
)
    requires
        lower(n1) == lower(n2),
    ensures
        spec_insert(spec_insert(h, lower(n1), v1), lower(n2), v2).len() == spec_insert(
            h,
            lower(n1),
            v1,
        ).len(),
{
    let k = lower(n1);
    let h2 = spec_insert(h, k, v1);
    if exists|i: int| key_first_at(h, k, i) {
        let i = choose|i: int| key_first_at(h, k, i);
        assert(h2 == h.update(i, (k, v1)));
        assert(key_first_at(h2, k, i)) by {
            assert(forall|j: int| 0 <= j < i ==> h2[j] == h[j]);
        }
    } else {
        assert forall|j: int| 0 <= j < h.len() implies (#[trigger] h[j].0) != k by {
            if h[j].0 == k {
                lemma_has_first(h, k, j);
            }
        }
        assert(h2 == h.push((k, v1)));
        assert(key_first_at(h2, k, h.len() as int));
    }
    assert(spec_insert(h2, k, v2).len() == h2.len()) by {
        assert(exists|i: int| key_first_at(h2, k, i));
    }
}

// ------------------------------------------------------------------
// Body resolution
// ------------------------------------------------------------------
/// A response that declares `content-length: 0` has an empty body and
/// consumes nothing past its header block, stream end or not.
pub proof fn lemma_response_body_zero(
    h: Seq<(Seq<char>, Seq<char>)>,
    s: Seq<u8>,
    from: int,
    eof: bool,
)
    requires
        spec_content_length(h) == Some(0int),
    ensures
        spec_response_body(h, s, from, eof) == SpecStep::<Seq<u8>>::Done(Seq::empty(), from),
{
}

/// A response that declares no length takes everything left in the stream,
/// once the stream has ended, as its body.
pub proof fn lemma_response_body_to_end(h: Seq<(Seq<char>, Seq<char>)>, s: Seq<u8>, from: int)
    requires
        spec_content_length(h) is None,
    ensures
        spec_response_body(h, s, from, true) == SpecStep::<Seq<u8>>::Done(
            s.subrange(from, s.len() as int),
            s.len() as int,
        ),
{
}

/// A request that declares no length has an empty body at once — even
/// before the stream ends, so the server never waits for one.
pub proof fn lemma_request_body_absent(
    h: Seq<(Seq<char>, Seq<char>)>,
    s: Seq<u8>,
    from: int,
    eof: bool,
)
    requires
        spec_content_length(h) is None,
    ensures
        spec_request_body(h, s, from, eof) == SpecStep::<Seq<u8>>::Done(Seq::empty(), from),
{
}

// ------------------------------------------------------------------
// Malformed request lines
// ------------------------------------------------------------------
/// A request line with fewer than three tokens parses to nothing.
pub proof fn lemma_request_line_two_tokens(content: Seq<u8>)
    requires
        crate::text::spec_find(content, 0, SP) is None || crate::text::spec_find(
            content,
            crate::text::spec_find(content, 0, SP)->Some_0 + 1,
            SP,
        ) is None,
    ensures
        spec_parse_request_line(content) is None,
{
}

/// A request line whose method token is unknown parses to nothing.
pub proof fn lemma_request_line_unknown_method(content: Seq<u8>, a: int, b: int)
    requires
        crate::text::spec_find(content, 0, SP) == Some(a),
        crate::text::spec_find(content, a + 1, SP) == Some(b),
        spec_method_from(content.subrange(0, a)) is None,
    ensures
        spec_parse_request_line(content) is None,
{
}

/// A request line whose version token is unrecognized parses to nothing.
pub proof fn lemma_request_line_unsupported_version(content: Seq<u8>, a: int, b: int)
    requires
        crate::text::spec_find(content, 0, SP) == Some(a),
        crate::text::spec_find(content, a + 1, SP) == Some(b),
        spec_version_from(content.subrange(b + 1, content.len() as int))
            == HttpVersion::UNSUPPORTED,
    ensures
        spec_parse_request_line(content) is None,
{
}

/// A complete first line that does not parse as a request line fails the
/// whole decode with a syntax error, and no request comes back.
pub proof fn lemma_bad_request_line_fails(s: Seq<u8>, eof: bool)
    requires
        spec_take_line(s, 0) matches LineStep::Line(content, next) && spec_parse_request_line(
            content,
        ) is None,
    ensures
        spec_decode_request(s, eof) == SpecStep::<RequestView>::Fail(
            crate::common::HttpError::HttpSyntaxError,
        ),
{
}

} // verus!
