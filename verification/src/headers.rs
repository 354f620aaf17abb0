//! The header collection: a mapping from lower-cased header names to values,
//! keys unique, kept in insertion order so that encoding is reproducible.

use crate::common::{DecodeStep, HttpError, SpecStep};
use crate::digits::{all_digits, dec_val};
use crate::text::{
    ascii_lowercase, find_byte, lower, push_str, spec_find, spec_take_line, string_from_utf8,
    take_line, LineStep, TakenLine, COLON, CR, HTAB, LF, SP,
};
use vstd::prelude::*;
use vstd::utf8::{decode_utf8, encode_utf8, valid_utf8};

verus! {

/// `i` is the position of the first entry with key `k` in `h`.
pub open spec fn key_first_at(h: Seq<(Seq<char>, Seq<char>)>, k: Seq<char>, i: int) -> bool {
    &&& 0 <= i < h.len()
    &&& h[i].0 == k
    &&& forall|j: int| 0 <= j < i ==> h[j].0 != k
}

/// There is at most one first entry with a given key.
pub proof fn lemma_key_first_unique(
    h: Seq<(Seq<char>, Seq<char>)>,
    k: Seq<char>,
    i: int,
    j: int,
)
    requires
        key_first_at(h, k, i),
        key_first_at(h, k, j),
    ensures
        i == j,
{
    if i < j {
        assert(h[i].0 != k);
    }
    if j < i {
        assert(h[j].0 != k);
    }
}

/// Where some entry carries key `k`, a first such entry exists.
pub proof fn lemma_has_first(h: Seq<(Seq<char>, Seq<char>)>, k: Seq<char>, j: int)
    requires
        0 <= j < h.len(),
        h[j].0 == k,
    ensures
        exists|i: int| key_first_at(h, k, i),
    decreases j,
{
    if forall|j2: int| 0 <= j2 < j ==> h[j2].0 != k {
        assert(key_first_at(h, k, j));
    } else {
        let j2 = choose|j2: int| 0 <= j2 < j && h[j2].0 == k;
        lemma_has_first(h, k, j2);
    }
}

/// The value stored under key `k`, if any.
pub open spec fn spec_lookup(h: Seq<(Seq<char>, Seq<char>)>, k: Seq<char>) -> Option<Seq<char>> {
    if exists|i: int| key_first_at(h, k, i) {
        Some(h[choose|i: int| key_first_at(h, k, i)].1)
    } else {
        None
    }
}

/// Whether some entry has key `k`.
pub open spec fn spec_has_key(h: Seq<(Seq<char>, Seq<char>)>, k: Seq<char>) -> bool {
    spec_lookup(h, k) is Some
}

/// Insertion: overwrite the entry holding `k` in place, or append a new one.
pub open spec fn spec_insert(
    h: Seq<(Seq<char>, Seq<char>)>,
    k: Seq<char>,
    v: Seq<char>,
) -> Seq<(Seq<char>, Seq<char>)> {
    if exists|i: int| key_first_at(h, k, i) {
        h.update(choose|i: int| key_first_at(h, k, i), (k, v))
    } else {
        h.push((k, v))
    }
}

/// Insertion with an already lower-cased key keeps headers well-formed.
pub proof fn lemma_insert_wf(h: Seq<(Seq<char>, Seq<char>)>, k: Seq<char>, v: Seq<char>)
    requires
        wf_headers(h),
        k == crate::text::lower(k),
    ensures
        wf_headers(spec_insert(h, k, v)),
{
    if exists|i: int| key_first_at(h, k, i) {
        let i = choose|i: int| key_first_at(h, k, i);
        let h2 = h.update(i, (k, v));
        assert(forall|j: int| 0 <= j < h2.len() ==> #[trigger] h2[j].0 == h[j].0);
    } else {
        assert(forall|j: int| 0 <= j < h.len() ==> h[j].0 != k) by {
            assert forall|j: int| 0 <= j < h.len() implies h[j].0 != k by {
                if h[j].0 == k {
                    lemma_has_first(h, k, j);
                }
            }
        }
    }
}

/// A well-formed header sequence: every key is already lower-cased and no
/// key occurs twice.
pub open spec fn wf_headers(h: Seq<(Seq<char>, Seq<char>)>) -> bool {
    &&& forall|i: int| 0 <= i < h.len() ==> h[i].0 == lower(#[trigger] h[i].0)
    &&& forall|i: int, j: int| 0 <= i < j < h.len() ==> h[i].0 != h[j].0
}

/// The name of the header that declares a body's byte count.
pub open spec fn cl_key() -> Seq<char> {
    seq!['c', 'o', 'n', 't', 'e', 'n', 't', '-', 'l', 'e', 'n', 'g', 't', 'h']
}

/// The parsed value of the `content-length` header: defined when the header
/// is present and its value is a digit string whose value fits in `usize`;
/// a missing or unusable value reads as absent.
pub open spec fn spec_content_length(h: Seq<(Seq<char>, Seq<char>)>) -> Option<int> {
    match spec_lookup(h, cl_key()) {
        Option::None => None,
        Option::Some(v) => {
            if v.len() > 0 && all_digits(v) && dec_val(v) <= usize::MAX {
                Some(dec_val(v))
            } else {
                None
            }
        },
    }
}

/// The wire bytes of one header line: `name: value` and CRLF.
pub open spec fn spec_header_line(k: Seq<char>, v: Seq<char>) -> Seq<u8> {
    encode_utf8(k) + seq![COLON, SP] + encode_utf8(v) + seq![CR, LF]
}

/// The wire bytes of a header block, one line per entry in order, without
/// the blank line that ends the block.
pub open spec fn spec_headers_bytes(h: Seq<(Seq<char>, Seq<char>)>) -> Seq<u8>
    decreases h.len(),
{
    if h.len() == 0 {
        seq![]
    } else {
        spec_header_line(h[0].0, h[0].1) + spec_headers_bytes(h.drop_first())
    }
}

/// Header blocks encode piecewise: the bytes of a concatenation are the
/// concatenated bytes.
pub proof fn lemma_headers_bytes_concat(a: Seq<(Seq<char>, Seq<char>)>, b: Seq<(Seq<char>, Seq<char>)>)
    ensures
        spec_headers_bytes(a + b) == spec_headers_bytes(a) + spec_headers_bytes(b),
    decreases a.len(),
{
    if a.len() == 0 {
        assert(a + b =~= b);
        assert(spec_headers_bytes(a) + spec_headers_bytes(b) =~= spec_headers_bytes(b));
    } else {
        assert((a + b).len() > 0);
        assert((a + b)[0] == a[0]);
        assert((a + b).drop_first() =~= a.drop_first() + b);
        lemma_headers_bytes_concat(a.drop_first(), b);
        assert(spec_headers_bytes(a + b) =~= spec_headers_bytes(a) + spec_headers_bytes(b));
    }
}

/// Leading optional whitespace (spaces and tabs) removed.
pub open spec fn spec_trim_ows(s: Seq<u8>) -> Seq<u8>
    decreases s.len(),
{
    if s.len() > 0 && (s[0] == SP || s[0] == HTAB) {
        spec_trim_ows(s.drop_first())
    } else {
        s
    }
}

/// One header line parsed: split at the first colon, the name lower-cased,
/// the value trimmed of leading whitespace. A line without a colon, or one
/// whose parts are not valid UTF-8, is malformed.
pub open spec fn spec_parse_header_line(content: Seq<u8>) -> Option<(Seq<char>, Seq<char>)> {
    match spec_find(content, 0, COLON) {
        Option::None => None,
        Option::Some(c) => {
            let name_bytes = content.subrange(0, c);
            let value_bytes = spec_trim_ows(content.subrange(c + 1, content.len() as int));
            if valid_utf8(name_bytes) && valid_utf8(value_bytes) {
                Some((lower(decode_utf8(name_bytes)), decode_utf8(value_bytes)))
            } else {
                None
            }
        },
    }
}

/// Reading a header block: lines are taken until a blank one, each parsed
/// and inserted into the collection `h0`, which the successful outcome
/// carries together with the position just past the blank line. A block that
/// ends before its blank line is incomplete, or malformed once the stream
/// is known to have ended.
pub open spec fn spec_read_headers(
    h0: Seq<(Seq<char>, Seq<char>)>,
    s: Seq<u8>,
    from: int,
    eof: bool,
) -> SpecStep<Seq<(Seq<char>, Seq<char>)>>
    decreases s.len() - from,
    when 0 <= from <= s.len()
{
    match spec_take_line(s, from) {
        LineStep::More => if eof {
            SpecStep::Fail(HttpError::HttpSyntaxError)
        } else {
            SpecStep::NeedMore
        },
        LineStep::Bad => SpecStep::Fail(HttpError::HttpSyntaxError),
        LineStep::Line(content, next) => {
            if content.len() == 0 {
                SpecStep::Done(h0, next)
            } else {
                match spec_parse_header_line(content) {
                    Option::None => SpecStep::Fail(HttpError::HttpSyntaxError),
                    Option::Some(kv) => spec_read_headers(spec_insert(h0, kv.0, kv.1), s, next, eof),
                }
            }
        },
    }
}

/// A successful header-block read ends past `from` and within the buffer.
pub proof fn lemma_read_headers_bounds(
    h0: Seq<(Seq<char>, Seq<char>)>,
    s: Seq<u8>,
    from: int,
    eof: bool,
)
    requires
        0 <= from <= s.len(),
    ensures
        spec_read_headers(h0, s, from, eof) matches SpecStep::Done(hs, next) ==> from < next
            <= s.len(),
    decreases s.len() - from,
{
    crate::text::lemma_take_line_bounds(s, from);
    match spec_take_line(s, from) {
        LineStep::Line(content, next) => {
            if content.len() > 0 {
                match spec_parse_header_line(content) {
                    Option::Some(kv) => {
                        lemma_read_headers_bounds(spec_insert(h0, kv.0, kv.1), s, next, eof);
                    },
                    Option::None => {},
                }
            }
        },
        _ => {},
    }
}

/// Parses one non-blank header line into its lower-cased name and trimmed
/// value.
pub(crate) fn parse_header_line(content: &[u8]) -> (r: Option<(String, String)>)
    ensures
        match r {
            Option::Some(kv) => spec_parse_header_line(content@) == Some((kv.0@, kv.1@))
                && kv.0@ == lower(kv.0@),
            Option::None => spec_parse_header_line(content@) is None,
        },
{
    match find_byte(content, 0, COLON) {
        None => None,
        Some(c) => {
            let n = content.len();
            let name_bytes = vstd::slice::slice_to_vec(vstd::slice::slice_subrange(content, 0, c));
            proof {
                assert(c < n);
            }
            let mut p = c + 1;
            while p < content.len() && (content[p] == SP || content[p] == HTAB)
                invariant
                    c + 1 <= p <= content@.len(),
                    spec_trim_ows(content@.subrange(c + 1, content@.len() as int)) == spec_trim_ows(
                        content@.subrange(p as int, content@.len() as int),
                    ),
                decreases content@.len() - p,
            {
                proof {
                    assert(content@.subrange(p as int, content@.len() as int).drop_first()
                        =~= content@.subrange(p + 1, content@.len() as int));
                }
                p = p + 1;
            }
            proof {
                assert(spec_trim_ows(content@.subrange(p as int, content@.len() as int))
                    == content@.subrange(p as int, content@.len() as int));
            }
            let value_bytes = vstd::slice::slice_to_vec(
                vstd::slice::slice_subrange(content, p, content.len()),
            );
            match string_from_utf8(name_bytes) {
                None => None,
                Some(name) => {
                    match string_from_utf8(value_bytes) {
                        None => None,
                        Some(value) => {
                            let key = ascii_lowercase(name.as_str());
                            proof {
                                crate::text::lemma_lower_idempotent(name@);
                            }
                            Some((key, value))
                        },
                    }
                },
            }
        },
    }
}

/// The literal header name `content-length`, which is its own lower-casing.
pub(crate) fn cl_key_str() -> (r: &'static str)
    ensures
        r@ == cl_key(),
        lower(r@) == cl_key(),
{
    proof {
        reveal_strlit("content-length");
        assert("content-length"@ =~= cl_key());
        assert(lower(cl_key()) =~= cl_key());
    }
    "content-length"
}

/// A collection of headers. Names are lower-cased on insertion and looked up
/// lower-cased, so casing never distinguishes two headers.
#[derive(Debug)]
pub struct HttpHeaders {
    entries: Vec<(String, String)>,
}

impl View for HttpHeaders {
    type V = Seq<(Seq<char>, Seq<char>)>;

    closed spec fn view(&self) -> Seq<(Seq<char>, Seq<char>)> {
        self.entries@.map_values(|p: (String, String)| (p.0@, p.1@))
    }
}

impl HttpHeaders {
    /// The headers are well-formed: keys lower-cased and unique.
    pub open spec fn wf(&self) -> bool {
        wf_headers(self@)
    }

    /// An empty header collection.
    pub fn new() -> (h: HttpHeaders)
        ensures
            h@ == Seq::<(Seq<char>, Seq<char>)>::empty(),
            h.wf(),
    {
        let h = HttpHeaders { entries: Vec::new() };
        proof {
            assert(h@ =~= Seq::<(Seq<char>, Seq<char>)>::empty());
        }
        h
    }

    /// How many headers are stored.
    pub fn len(&self) -> (n: usize)
        ensures
            n == self@.len(),
    {
        self.entries.len()
    }

    /// Stores `value` under the lower-casing of `name`, overwriting in place
    /// if the name is already present and appending otherwise.
    pub fn insert(&mut self, name: &str, value: String)
        requires
            old(self).wf(),
        ensures
            final(self)@ == spec_insert(old(self)@, lower(name@), value@),
            final(self).wf(),
    {
        let key = ascii_lowercase(name);
        proof {
            crate::text::lemma_lower_idempotent(name@);
        }
        let ghost k = lower(name@);
        let mut i: usize = 0;
        while i < self.entries.len()
            invariant
                *self == *old(self),
                old(self).wf(),
                0 <= i <= self.entries@.len(),
                key@ == k,
                k == lower(name@),
                forall|j: int| 0 <= j < i ==> self@[j].0 != k,
            decreases self.entries@.len() - i,
        {
            if self.entries[i].0 == key {
                proof {
                    assert(key_first_at(self@, k, i as int));
                    lemma_key_first_unique(
                        self@,
                        k,
                        i as int,
                        choose|j: int| key_first_at(self@, k, j),
                    );
                }
                self.entries.remove(i);
                self.entries.insert(i, (key, value));
                proof {
                    assert(self@ =~= spec_insert(old(self)@, k, value@));
                    lemma_insert_wf(old(self)@, k, value@);
                }
                return;
            }
            i = i + 1;
        }
        proof {
            if exists|j: int| key_first_at(self@, k, j) {
                let j = choose|j: int| key_first_at(self@, k, j);
                assert(self@[j].0 != k);
            }
        }
        self.entries.push((key, value));
        proof {
            assert(self@ =~= spec_insert(old(self)@, k, value@));
            lemma_insert_wf(old(self)@, k, value@);
        }
    }

    /// The value stored under the lower-casing of `name`, if any.
    pub fn get(&self, name: &str) -> (r: Option<&String>)
        ensures
            match r {
                Option::Some(v) => spec_lookup(self@, lower(name@)) == Some(v@),
                Option::None => spec_lookup(self@, lower(name@)) is None,
            },
    {
        let key = ascii_lowercase(name);
        let ghost k = lower(name@);
        let mut i: usize = 0;
        while i < self.entries.len()
            invariant
                0 <= i <= self.entries@.len(),
                key@ == k,
                k == lower(name@),
                forall|j: int| 0 <= j < i ==> self@[j].0 != k,
            decreases self.entries@.len() - i,
        {
            if self.entries[i].0 == key {
                proof {
                    assert(key_first_at(self@, k, i as int));
                    lemma_key_first_unique(
                        self@,
                        k,
                        i as int,
                        choose|j: int| key_first_at(self@, k, j),
                    );
                }
                return Some(&self.entries[i].1);
            }
            i = i + 1;
        }
        proof {
            if exists|j: int| key_first_at(self@, k, j) {
                let j = choose|j: int| key_first_at(self@, k, j);
                assert(self@[j].0 != k);
            }
        }
        None
    }

    /// Whether a header is stored under the lower-casing of `key`.
    pub fn contains_key(&self, key: &String) -> (r: bool)
        ensures
            r == spec_has_key(self@, lower(key@)),
    {
        match self.get(key.as_str()) {
            Some(_) => true,
            None => false,
        }
    }

    /// Writes every header as `name: value` followed by CRLF, in insertion
    /// order, onto `out`.
    pub fn write_to(&self, out: &mut Vec<u8>)
        ensures
            final(out)@ == old(out)@ + spec_headers_bytes(self@),
    {
        let mut i: usize = 0;
        while i < self.entries.len()
            invariant
                0 <= i <= self.entries@.len(),
                out@ == old(out)@ + spec_headers_bytes(self@.take(i as int)),
            decreases self.entries@.len() - i,
        {
            let ghost mid = out@;
            push_str(out, self.entries[i].0.as_str());
            out.push(COLON);
            out.push(SP);
            push_str(out, self.entries[i].1.as_str());
            out.push(CR);
            out.push(LF);
            proof {
                assert(self@.take(i + 1) =~= self@.take(i as int) + seq![self@[i as int]]);
                lemma_headers_bytes_concat(self@.take(i as int), seq![self@[i as int]]);
                assert(seq![self@[i as int]].drop_first() =~= Seq::<(Seq<char>, Seq<char>)>::empty());
                assert(spec_headers_bytes(Seq::<(Seq<char>, Seq<char>)>::empty()) == Seq::<u8>::empty());
                assert(spec_headers_bytes(seq![self@[i as int]]) =~= spec_header_line(
                    self@[i as int].0,
                    self@[i as int].1,
                ));
                assert(out@ =~= old(out)@ + spec_headers_bytes(self@.take(i + 1)));
            }
            i = i + 1;
        }
        proof {
            assert(self@.take(self.entries@.len() as int) =~= self@);
        }
    }

    /// Reads CRLF-terminated header lines from `input`, starting at `from`,
    /// until the blank line that ends the block, inserting each into `self`.
    /// On success the result carries the position just past the blank line;
    /// what a failed read leaves in `self` is discarded by its callers and
    /// is not specified beyond well-formedness.
    pub fn read_from(&mut self, input: &[u8], from: usize, eof: bool) -> (r: DecodeStep<()>)
        requires
            old(self).wf(),
            from <= input@.len(),
        ensures
            final(self).wf(),
            match spec_read_headers(old(self)@, input@, from as int, eof) {
                SpecStep::NeedMore => r is NeedMore,
                SpecStep::Fail(e) => r == DecodeStep::<()>::Fail(e),
                SpecStep::Done(hs, next) => r == DecodeStep::<()>::Done((), next as usize)
                    && final(self)@ == hs,
            },
    {
        let mut pos = from;
        loop
            invariant
                self.wf(),
                from <= pos <= input@.len(),
                spec_read_headers(old(self)@, input@, from as int, eof) == spec_read_headers(
                    self@,
                    input@,
                    pos as int,
                    eof,
                ),
            decreases input@.len() - pos,
        {
            match take_line(input, pos) {
                TakenLine::More => {
                    if eof {
                        return DecodeStep::Fail(HttpError::HttpSyntaxError);
                    } else {
                        return DecodeStep::NeedMore;
                    }
                },
                TakenLine::Bad => {
                    return DecodeStep::Fail(HttpError::HttpSyntaxError);
                },
                TakenLine::Line(content, next) => {
                    if content.len() == 0 {
                        return DecodeStep::Done((), next);
                    }
                    match parse_header_line(content.as_slice()) {
                        None => {
                            return DecodeStep::Fail(HttpError::HttpSyntaxError);
                        },
                        Some((name, value)) => {
                            self.insert(name.as_str(), value);
                            pos = next;
                        },
                    }
                },
            }
        }
    }

    /// The body length the headers declare: the value of `content-length`
    /// parsed as a decimal number, or absent when the header is missing or
    /// its value is not a usable number.
    pub fn content_length(&self) -> (r: Option<usize>)
        ensures
            match r {
                Option::Some(n) => spec_content_length(self@) == Some(n as int),
                Option::None => spec_content_length(self@) is None,
            },
    {
        match self.get(cl_key_str()) {
            None => None,
            Some(v) => crate::digits::parse_dec(v.as_str()),
        }
    }
}

} // verus!
