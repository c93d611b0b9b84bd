//! Comparison of two byte streams, chunk by chunk.

use std::collections::VecDeque;

use vstd::prelude::*;
use vstd::utf8::*;

use crate::checkers::types::{accepted, wrong, CheckerVerdict};
use crate::checkers::util::{
    line_count_msg, line_mismatch_msg, token_count_msg, token_mismatch_msg, truncate,
};
use crate::text::{decimal, is_whitespace, str_eq, to_lower, trim_end};
use crate::utf8::decode_prefix;
use crate::checkers::types;
use crate::checkers::util;
use crate::text;
use crate::utf8;

verus! {

// ---------------------------------------------------------------------------
// Sources
// ---------------------------------------------------------------------------

/// A stream of bytes that is read in chunks.
pub trait ByteSource {
    /// The bytes still to come.
    spec fn remaining(&self) -> Seq<u8>;

    /// Whether a read can fail.
    spec fn may_fail(&self) -> bool;

    /// A bound on the number of chunks still to come.
    spec fn chunks_left(&self) -> nat;

    /// The next bytes, or `None` once all have been read.
    fn next_chunk(&mut self) -> (r: Result<Option<Vec<u8>>, String>)
        ensures
            final(self).may_fail() == old(self).may_fail(),
            r is Err ==> old(self).may_fail(),
            r matches Ok(Some(chunk)) ==> old(self).remaining() == chunk@
                + final(self).remaining() && final(self).chunks_left() < old(self).chunks_left(),
            r matches Ok(None) ==> old(self).remaining().len() == 0 && final(self).remaining().len()
                == 0 && final(self).chunks_left() <= old(self).chunks_left(),
    ;
}

/// Bytes in memory, handed out `chunk_size` at a time.
pub struct MemoryByteSource {
    bytes: Vec<u8>,
    offset: usize,
    chunk_size: usize,
}

impl MemoryByteSource {
    #[verifier::type_invariant]
    spec fn well_formed(&self) -> bool {
        self.offset <= self.bytes@.len() && self.chunk_size >= 1
    }

    pub fn new(bytes: Vec<u8>, chunk_size: usize) -> (r: Self)
        ensures
            r.remaining() == bytes@,
            !r.may_fail(),
    {
        let r = MemoryByteSource {
            bytes,
            offset: 0,
            chunk_size: if chunk_size == 0 {
                1
            } else {
                chunk_size
            },
        };
        assert(r.remaining() =~= bytes@);
        r
    }
}

impl ByteSource for MemoryByteSource {
    closed spec fn remaining(&self) -> Seq<u8> {
        self.bytes@.skip(self.offset as int)
    }

    closed spec fn may_fail(&self) -> bool {
        false
    }

    closed spec fn chunks_left(&self) -> nat {
        (self.bytes@.len() - self.offset) as nat
    }

    fn next_chunk(&mut self) -> (r: Result<Option<Vec<u8>>, String>) {
        proof {
            use_type_invariant(&*self);
        }
        let total: usize = self.bytes.len();
        if self.offset >= total {
            return Ok(None);
        }
        let start: usize = self.offset;
        let end: usize = if self.chunk_size >= total - start {
            total
        } else {
            start + self.chunk_size
        };
        let mut chunk: Vec<u8> = Vec::new();
        let mut i: usize = start;
        while i < end
            invariant
                start <= i <= end <= self.bytes@.len(),
                chunk@ == self.bytes@.subrange(start as int, i as int),
            decreases end - i,
        {
            chunk.push(self.bytes[i]);
            assert(self.bytes@.subrange(start as int, i as int + 1) =~= self.bytes@.subrange(
                start as int,
                i as int,
            ).push(self.bytes@[i as int]));
            i += 1;
        }
        assert(self.bytes@.skip(start as int) =~= chunk@ + self.bytes@.skip(end as int));
        self.offset = end;
        Ok(Some(chunk))
    }
}

/// How two outputs are compared.
#[derive(Debug, Clone, Copy, PartialEq, Eq, Structural)]
pub enum StreamingFormat {
    Exact,
    Lines,
    Tokens,
    TokensCaseInsensitive,
    TokensFloat,
}

// ---------------------------------------------------------------------------
// Bytes
// ---------------------------------------------------------------------------

/// How many bytes two runs have in common from the start.
pub open spec fn common_prefix(a: Seq<u8>, b: Seq<u8>) -> nat
    decreases a.len(),
{
    if a.len() > 0 && b.len() > 0 && a[0] == b[0] {
        1 + common_prefix(a.drop_first(), b.drop_first())
    } else {
        0
    }
}

pub open spec fn byte_diff_text(offset: nat) -> Seq<char> {
    "Expected and actual output differ near byte offset "@ + text::decimal_digits(offset)
}

/// The verdict on equal, or on differing, bytes.
pub open spec fn exact_verdict(v: CheckerVerdict, expected: Seq<u8>, actual: Seq<u8>) -> bool {
    if expected == actual {
        types::says_accepted(v)
    } else {
        types::says_wrong(v, byte_diff_text(common_prefix(expected, actual)))
    }
}

fn byte_diff_msg(offset: usize) -> (r: String)
    ensures
        r@ == byte_diff_text(offset as nat),
{
    let mut out = "Expected and actual output differ near byte offset ".to_owned();
    out.append(decimal(offset as u64).as_str());
    out
}

fn fill_byte_queue<S: ByteSource>(source: &mut S, queue: &mut VecDeque<u8>, done: &mut bool) -> (r:
    Result<(), String>)
    requires
        *old(done) ==> old(source).remaining().len() == 0,
    ensures
        final(source).may_fail() == old(source).may_fail(),
        r is Err ==> old(source).may_fail(),
        r is Ok ==> final(queue)@ + final(source).remaining() == old(queue)@ + old(source).remaining(),
        r is Ok ==> (*final(done) ==> final(source).remaining().len() == 0),
        r is Ok && (old(queue)@.len() > 0 || *old(done)) ==> final(queue)@ == old(queue)@
            && final(source).chunks_left() == old(source).chunks_left() && *final(done) == *old(done),
        r is Ok && old(queue)@.len() == 0 && !*old(done) ==> (*final(done) && final(queue)@.len()
            == 0) || (!*final(done) && final(source).chunks_left() < old(source).chunks_left()),
        r is Ok ==> final(source).chunks_left() <= old(source).chunks_left(),
{
    if queue.len() > 0 || *done {
        return Ok(());
    }
    let ghost before = source.remaining();
    match source.next_chunk() {
        Err(e) => Err(e),
        Ok(Some(chunk)) => {
            let mut i: usize = 0;
            while i < chunk.len()
                invariant
                    i <= chunk@.len(),
                    queue@ == chunk@.take(i as int),
                decreases chunk@.len() - i,
            {
                queue.push_back(chunk[i]);
                assert(chunk@.take(i as int + 1) =~= chunk@.take(i as int).push(chunk@[i as int]));
                i += 1;
            }
            assert(chunk@.take(i as int) =~= chunk@);
            assert(queue@ + source.remaining() =~= old(queue)@ + before);
            Ok(())
        },
        Ok(None) => {
            *done = true;
            assert(queue@ + source.remaining() =~= old(queue)@ + before);
            Ok(())
        },
    }
}

proof fn lemma_common_prefix_skip(a: Seq<u8>, b: Seq<u8>, k: nat)
    requires
        k <= a.len(),
        k <= b.len(),
        a.take(k as int) == b.take(k as int),
    ensures
        common_prefix(a, b) == k + common_prefix(a.skip(k as int), b.skip(k as int)),
    decreases k,
{
    if k == 0 {
        assert(a.skip(0) =~= a);
        assert(b.skip(0) =~= b);
    } else {
        assert(a[0] == a.take(k as int)[0]);
        assert(b[0] == b.take(k as int)[0]);
        let k1 = (k - 1) as nat;
        assert(a.drop_first().take(k1 as int) =~= a.take(k as int).skip(1));
        assert(b.drop_first().take(k1 as int) =~= b.take(k as int).skip(1));
        lemma_common_prefix_skip(a.drop_first(), b.drop_first(), k1);
        assert(a.drop_first().skip(k1 as int) =~= a.skip(k as int));
        assert(b.drop_first().skip(k1 as int) =~= b.skip(k as int));
    }
}

/// Compares the bytes of two sources.
#[verifier::loop_isolation(false)]
pub fn compare_exact<E: ByteSource, A: ByteSource>(expected: E, actual: A) -> (r: Result<
    CheckerVerdict,
    String,
>)
    requires
        expected.remaining().len() <= usize::MAX,
    ensures
        r is Err ==> expected.may_fail() || actual.may_fail(),
        r matches Ok(v) ==> exact_verdict(v, expected.remaining(), actual.remaining()),
{
    let ghost e_all = expected.remaining();
    let ghost a_all = actual.remaining();
    let mut expected = expected;
    let mut actual = actual;
    let mut expected_buf: VecDeque<u8> = VecDeque::new();
    let mut actual_buf: VecDeque<u8> = VecDeque::new();
    let mut expected_done = false;
    let mut actual_done = false;
    let mut offset: usize = 0;
    let ghost e_fail = expected.may_fail();
    let ghost a_fail = actual.may_fail();
    proof {
        assert(e_all.skip(0) =~= e_all);
        assert(a_all.skip(0) =~= a_all);
        assert(e_all.take(0) =~= a_all.take(0));
        assert(expected_buf@ + expected.remaining() =~= e_all.skip(0));
        assert(actual_buf@ + actual.remaining() =~= a_all.skip(0));
    }
    loop
        invariant
            e_all.len() <= usize::MAX,
            offset <= e_all.len(),
            offset <= a_all.len(),
            e_all.take(offset as int) == a_all.take(offset as int),
            expected_buf@ + expected.remaining() == e_all.skip(offset as int),
            actual_buf@ + actual.remaining() == a_all.skip(offset as int),
            expected_done ==> expected.remaining().len() == 0,
            actual_done ==> actual.remaining().len() == 0,
            expected.may_fail() == e_fail,
            actual.may_fail() == a_fail,
            (expected_buf@.len() == 0 && !expected_done) || (actual_buf@.len() == 0
                && !actual_done),
        decreases
                expected.chunks_left() + actual.chunks_left() + (if expected_done {
                    0nat
                } else {
                    1
                }) + (if actual_done {
                    0nat
                } else {
                    1
                }),
    {
        match fill_byte_queue(&mut expected, &mut expected_buf, &mut expected_done) {
            Err(e) => {
                return Err(e);
            },
            Ok(()) => {},
        }
        match fill_byte_queue(&mut actual, &mut actual_buf, &mut actual_done) {
            Err(e) => {
                return Err(e);
            },
            Ok(()) => {},
        }
        while expected_buf.len() > 0 && actual_buf.len() > 0
            invariant
                e_all.len() <= usize::MAX,
                offset <= e_all.len(),
                offset <= a_all.len(),
                e_all.take(offset as int) == a_all.take(offset as int),
                expected_buf@ + expected.remaining() == e_all.skip(offset as int),
                actual_buf@ + actual.remaining() == a_all.skip(offset as int),
            decreases expected_buf@.len(),
        {
            let ghost e_rest = expected_buf@ + expected.remaining();
            let ghost a_rest = actual_buf@ + actual.remaining();
            let ghost k = offset as int;
            assert(e_rest[0] == expected_buf@[0]);
            assert(a_rest[0] == actual_buf@[0]);
            assert(e_all.skip(k).len() > 0 && a_all.skip(k).len() > 0);
            assert(e_all.skip(k)[0] == e_all[k]);
            assert(a_all.skip(k)[0] == a_all[k]);
            let ghost eb = expected_buf@;
            let ghost ab = actual_buf@;
            let (exp, act) = match (expected_buf.pop_front(), actual_buf.pop_front()) {
                (Some(x), Some(y)) => (x, y),
                _ => (0, 0),
            };
            if exp != act {
                proof {
                    lemma_common_prefix_skip(e_all, a_all, offset as nat);
                    assert(e_all[k] != a_all[k]);
                }
                return Ok(wrong(byte_diff_msg(offset)));
            }
            proof {
                assert(expected_buf@ =~= eb.drop_first());
                assert(actual_buf@ =~= ab.drop_first());
                assert(expected_buf@ + expected.remaining() =~= e_all.skip(k).drop_first());
                assert(actual_buf@ + actual.remaining() =~= a_all.skip(k).drop_first());
                assert(e_all.skip(k).drop_first() =~= e_all.skip(k + 1));
                assert(a_all.skip(k).drop_first() =~= a_all.skip(k + 1));
                assert(e_all.take(k + 1) =~= e_all.take(k).push(e_all[k]));
                assert(a_all.take(k + 1) =~= a_all.take(k).push(a_all[k]));
            }
            offset += 1;
        }
        if expected_done && actual_done && expected_buf.len() == 0 && actual_buf.len() == 0 {
            proof {
                assert(e_all.skip(offset as int).len() == 0);
                assert(a_all.skip(offset as int).len() == 0);
                assert(e_all =~= e_all.take(offset as int));
                assert(a_all =~= a_all.take(offset as int));
            }
            return Ok(accepted());
        }
        if (expected_done && expected_buf.len() == 0 && actual_buf.len() > 0) || (actual_done
            && actual_buf.len() == 0 && expected_buf.len() > 0) {
            proof {
                lemma_common_prefix_skip(e_all, a_all, offset as nat);
                assert(e_all.skip(offset as int).len() != a_all.skip(offset as int).len());
                assert(e_all != a_all);
            }
            return Ok(wrong(byte_diff_msg(offset)));
        }
    }
}

// ---------------------------------------------------------------------------
// Characters
// ---------------------------------------------------------------------------

/// The characters of a source of UTF-8.
pub struct CharStream<S> {
    source: S,
    pending: Vec<u8>,
    chars: VecDeque<char>,
    eof: bool,
}

impl<S: ByteSource> CharStream<S> {
    /// The bytes that have not been decoded yet.
    pub closed spec fn undecoded(&self) -> Seq<u8> {
        self.pending@ + self.source.remaining()
    }

    pub closed spec fn may_fail(&self) -> bool {
        self.source.may_fail()
    }

    /// Whether all that is still to come is UTF-8.
    pub open spec fn valid(&self) -> bool {
        valid_utf8(self.undecoded())
    }

    /// The characters still to come, up to the first bytes that are no UTF-8.
    pub closed spec fn text(&self) -> Seq<char> {
        self.chars@ + utf8::legible(self.undecoded())
    }

    /// A bound on the number of characters still to come.
    pub closed spec fn budget(&self) -> nat {
        self.chars@.len() + self.undecoded().len()
    }

    pub closed spec fn wf(&self) -> bool {
        self.eof ==> self.source.remaining().len() == 0 && (self.pending@.len() == 0
            || !valid_utf8(self.pending@))
    }

    pub fn new(source: S) -> (r: Self)
        ensures
            r.wf(),
            r.undecoded() == source.remaining(),
            r.may_fail() == source.may_fail(),
            r.text() == utf8::legible(source.remaining()),
            r.budget() == source.remaining().len(),
    {
        let r = CharStream {
            source,
            pending: Vec::new(),
            chars: VecDeque::new(),
            eof: false,
        };
        assert(r.undecoded() =~= source.remaining());
        assert(r.chars@ + utf8::legible(r.undecoded()) =~= utf8::legible(r.undecoded()));
        r
    }

    /// The next character, or `None` at the end of the text.
    pub fn next_char(&mut self) -> (r: Result<Option<char>, String>)
        requires
            old(self).wf(),
        ensures
            final(self).may_fail() == old(self).may_fail(),
            r is Err ==> old(self).may_fail() || !old(self).valid(),
            r is Ok ==> final(self).wf() && final(self).valid() == old(self).valid(),
            r matches Ok(Some(c)) ==> final(self).budget() < old(self).budget()
                && old(self).text() == seq![c] + final(self).text(),
            r matches Ok(None) ==> old(self).valid() && old(self).text().len() == 0
                && final(self).text().len() == 0 && final(self).budget() <= old(self).budget(),
    {
        let ghost start = *self;
        loop
            invariant
                self.wf(),
                self.may_fail() == start.may_fail(),
                self.valid() == start.valid(),
                self.text() == start.text(),
                self.budget() <= start.budget(),
                start == *old(self),
            decreases
                    self.source.chunks_left(),
                    (if self.eof {
                        0nat
                    } else {
                        1
                    }),
        {
            let ghost before = *self;
            match self.chars.pop_front() {
                Some(c) => {
                    proof {
                        assert(self.chars@ =~= before.chars@.drop_first());
                        assert(before.text() =~= seq![c] + self.text());
                    }
                    return Ok(Some(c));
                },
                None => {},
            }
            assert(self.chars@ =~= before.chars@);
            if self.eof {
                assert(self.undecoded() =~= self.pending@);
                if self.pending.len() == 0 {
                    assert(self.text() =~= Seq::<char>::empty());
                    return Ok(None);
                }
                return Err("Stream ended with incomplete UTF-8 sequence".to_owned());
            }
            match self.fill() {
                Ok(()) => {},
                Err(e) => {
                    return Err(e);
                },
            }
        }
    }

    fn fill(&mut self) -> (r: Result<(), String>)
        requires
            old(self).wf(),
            !old(self).eof,
        ensures
            final(self).may_fail() == old(self).may_fail(),
            r is Err ==> old(self).may_fail() || !old(self).valid(),
            r is Ok ==> {
                &&& final(self).wf()
                &&& final(self).valid() == old(self).valid()
                &&& final(self).text() == old(self).text()
                &&& final(self).budget() <= old(self).budget()
                &&& final(self).source.chunks_left() < old(self).source.chunks_left()
                    || (final(self).eof
                    && final(self).source.chunks_left() <= old(self).source.chunks_left())
            },
    {
        let ghost start = *self;
        match self.source.next_chunk() {
            Err(e) => {
                return Err(e);
            },
            Ok(Some(chunk)) => {
                let mut chunk = chunk;
                let ghost bytes = chunk@;
                self.pending.append(&mut chunk);
                assert(self.pending@ + self.source.remaining() =~= start.pending@ + (bytes
                    + self.source.remaining()));
            },
            Ok(None) => {
                self.eof = true;
                assert(self.pending@ + self.source.remaining() =~= start.undecoded());
            },
        }
        assert(self.undecoded() =~= start.undecoded());
        let ghost all = self.pending@;
        match decode_prefix(self.pending.as_slice()) {
            Ok((decoded, n)) => {
                let ghost tail = all.skip(n as int);
                let ghost more = self.source.remaining();
                let ghost mid = *self;
                let mut i: usize = 0;
                while i < decoded.len()
                    invariant
                        i <= decoded@.len(),
                        self.chars@ == start.chars@ + decoded@.take(i as int),
                        self.pending == mid.pending,
                        self.source == mid.source,
                        self.eof == mid.eof,
                    decreases decoded@.len() - i,
                {
                    self.chars.push_back(decoded[i]);
                    assert(start.chars@ + decoded@.take(i as int + 1) =~= (start.chars@
                        + decoded@.take(i as int)).push(decoded@[i as int]));
                    i += 1;
                }
                assert(decoded@.take(i as int) =~= decoded@);
                self.pending = self.pending.split_off(n);
                proof {
                    assert(self.pending@ =~= tail);
                    assert(all.take(n as int) + tail =~= all);
                    assert(start.undecoded() =~= all.take(n as int) + (tail + more));
                    utf8::lemma_valid_suffix(all.take(n as int), tail + more);
                    utf8::lemma_legible_suffix(all.take(n as int), tail + more);
                    utf8::lemma_decode_len(all.take(n as int));
                    assert(start.text() =~= self.text());
                }
                Ok(())
            },
            Err(problem) => {
                let mut out = "Stream is not UTF-8: invalid utf-8 sequence of ".to_owned();
                out.append(decimal(problem.error_len as u64).as_str());
                out.append(" bytes from index ");
                out.append(decimal(problem.valid_up_to as u64).as_str());
                Err(out)
            },
        }
    }
}

// ---------------------------------------------------------------------------
// Tokens
// ---------------------------------------------------------------------------

/// The words of a source of UTF-8.
pub struct TokenStream<S> {
    chars: CharStream<S>,
    partial: String,
}

impl<S: ByteSource> TokenStream<S> {
    pub closed spec fn may_fail(&self) -> bool {
        self.chars.may_fail()
    }

    pub closed spec fn valid(&self) -> bool {
        self.chars.valid()
    }

    /// The tokens still to come.
    pub closed spec fn tokens(&self) -> Seq<Seq<char>> {
        util::tokens_of(self.chars.text())
    }

    /// A bound on the number of tokens still to come.
    pub closed spec fn budget(&self) -> nat {
        self.chars.budget()
    }

    pub closed spec fn wf(&self) -> bool {
        self.chars.wf() && self.partial@.len() == 0
    }

    /// A stream at the start of these bytes.
    pub open spec fn starts(self, bytes: Seq<u8>) -> bool {
        &&& self.wf()
        &&& self.valid() == valid_utf8(bytes)
        &&& self.tokens() == util::tokens_of(utf8::legible(bytes))
    }

    /// What a read may come to, and what it leaves.
    pub open spec fn reads(self, r: Result<Option<String>, String>, after: Self) -> bool {
        &&& after.may_fail() == self.may_fail()
        &&& r is Err ==> self.may_fail() || !self.valid()
        &&& r is Ok ==> after.wf() && after.valid() == self.valid()
        &&& r matches Ok(Some(t)) ==> after.budget() < self.budget() && self.tokens() == seq![t@]
            + after.tokens()
        &&& r matches Ok(None) ==> self.valid() && self.tokens().len() == 0
            && after.tokens().len() == 0
    }

    pub fn new(source: S) -> (r: Self)
        ensures
            r.starts(source.remaining()),
            r.may_fail() == source.may_fail(),
            r.budget() == source.remaining().len(),
    {
        TokenStream { chars: CharStream::new(source), partial: String::new() }
    }

    /// The next token, or `None` when there is none.
    pub fn next_token(&mut self) -> (r: Result<Option<String>, String>)
        requires
            old(self).wf(),
        ensures
            old(self).reads(r, *final(self)),
    {
        let ghost start = *self;
        loop
            invariant
                self.chars.wf(),
                self.may_fail() == start.may_fail(),
                self.valid() == start.valid(),
                start.tokens() == util::tokens_of(self.partial@ + self.chars.text()),
                forall|i: int| 0 <= i < self.partial@.len() ==> !text::is_white(
                    #[trigger] self.partial@[i],
                ),
                self.chars.budget() + self.partial@.len() <= start.budget(),
                start == *old(self),
            decreases self.chars.budget(),
        {
            let ghost part = self.partial@;
            let ghost before = self.chars.text();
            let step = self.chars.next_char();
            match step {
                Err(e) => {
                    return Err(e);
                },
                Ok(Some(c)) => {
                    if is_whitespace(c) {
                        if !self.partial.as_str().is_empty() {
                            proof {
                                let s = part + before;
                                assert(s.take(part.len() as int) =~= part);
                                assert(s.skip(part.len() as int) =~= before);
                                assert forall|i: int| 0 <= i < part.len() implies !text::is_white(
                                    #[trigger] s[i],
                                ) by {
                                    assert(s[i] == part[i]);
                                }
                                assert(s[part.len() as int] == c);
                                util::lemma_tokens_word(s, part.len() as int);
                                assert(before.drop_first() =~= self.chars.text());
                                util::lemma_tokens_white(before);
                            }
                            let mut word = String::new();
                            std::mem::swap(&mut word, &mut self.partial);
                            return Ok(Some(word));
                        }
                        proof {
                            assert(part + before =~= before);
                            assert(before.drop_first() =~= self.chars.text());
                            assert(part + self.chars.text() =~= self.chars.text());
                            util::lemma_tokens_white(before);
                        }
                    } else {
                        self.partial.push(c);
                        proof {
                            assert(part + before =~= self.partial@ + self.chars.text());
                        }
                    }
                },
                Ok(None) => {
                    proof {
                        assert(before =~= Seq::<char>::empty());
                        assert(self.chars.text() =~= Seq::<char>::empty());
                        assert(part + before =~= part);
                    }
                    if self.partial.as_str().is_empty() {
                        return Ok(None);
                    }
                    proof {
                        util::lemma_tokens_word(part, part.len() as int);
                        assert(part.take(part.len() as int) =~= part);
                        assert(part.skip(part.len() as int) =~= Seq::<char>::empty());
                        assert(util::tokens_of(part) =~= seq![part]
                            + util::tokens_of(self.chars.text()));
                    }
                    let mut word = String::new();
                    std::mem::swap(&mut word, &mut self.partial);
                    return Ok(Some(word));
                },
            }
        }
    }
}

fn count_remaining_tokens<S: ByteSource>(stream: &mut TokenStream<S>) -> (r: Result<usize, String>)
    requires
        old(stream).wf(),
        old(stream).budget() <= usize::MAX,
    ensures
        final(stream).may_fail() == old(stream).may_fail(),
        r is Err ==> old(stream).may_fail() || !old(stream).valid(),
        r matches Ok(n) ==> old(stream).valid() && n == old(stream).tokens().len()
            && n <= old(stream).budget(),
{
    let ghost start = *stream;
    let mut count: usize = 0;
    loop
        invariant
            stream.wf(),
            stream.may_fail() == start.may_fail(),
            stream.valid() == start.valid(),
            stream.valid() ==> count + stream.tokens().len() == start.tokens().len(),
            count + stream.budget() <= start.budget(),
            start.budget() <= usize::MAX,
            start == *old(stream),
        decreases stream.budget(),
    {
        match stream.next_token() {
            Err(e) => {
                return Err(e);
            },
            Ok(Some(_)) => {
                count += 1;
            },
            Ok(None) => {
                return Ok(count);
            },
        }
    }
}

/// Read one after the other, the tokens of a text that can be read come out in
/// order, each once. After the last every read gives nothing, and none fails.
/// `states` are the stream before each read and after the last one.
pub proof fn tokens_are_read_in_order<S: ByteSource>(
    bytes: Seq<u8>,
    states: Seq<TokenStream<S>>,
    results: Seq<Result<Option<String>, String>>,
    i: int,
)
    requires
        states.len() == results.len() + 1,
        valid_utf8(bytes),
        states[0].starts(bytes),
        !states[0].may_fail(),
        forall|k: int|
            0 <= k < results.len() ==> states[k].reads(#[trigger] results[k], states[k + 1]),
        0 <= i < results.len(),
    ensures
        ({
            let tokens = util::tokens_of(decode_utf8(bytes));
            if i < tokens.len() {
                results[i] matches Ok(Some(t)) && t@ == tokens[i]
            } else {
                results[i] matches Ok(None)
            }
        }),
{
    lemma_all_legible(bytes);
    lemma_tokens_left(bytes, states, results, i);
    assert(states[i].reads(results[i], states[i + 1]));
    let tokens = util::tokens_of(decode_utf8(bytes));
    if i < tokens.len() {
        assert(states[i].tokens()[0] == tokens[i]);
    }
}

proof fn lemma_tokens_left<S: ByteSource>(
    bytes: Seq<u8>,
    states: Seq<TokenStream<S>>,
    results: Seq<Result<Option<String>, String>>,
    i: int,
)
    requires
        states.len() == results.len() + 1,
        valid_utf8(bytes),
        states[0].starts(bytes),
        !states[0].may_fail(),
        forall|k: int|
            0 <= k < results.len() ==> states[k].reads(#[trigger] results[k], states[k + 1]),
        0 <= i <= results.len(),
    ensures
        states[i].valid(),
        !states[i].may_fail(),
        ({
            let tokens = util::tokens_of(decode_utf8(bytes));
            states[i].tokens() == if i < tokens.len() {
                tokens.skip(i)
            } else {
                Seq::empty()
            }
        }),
    decreases i,
{
    let tokens = util::tokens_of(decode_utf8(bytes));
    lemma_all_legible(bytes);
    if i == 0 {
        assert(tokens.skip(0) =~= tokens);
        if tokens.len() == 0 {
            assert(tokens =~= Seq::empty());
        }
    } else {
        lemma_tokens_left(bytes, states, results, i - 1);
        let before = states[i - 1];
        let after = states[i];
        assert(before.reads(results[i - 1], after));
        match results[i - 1] {
            Ok(Some(t)) => {
                assert(before.tokens() == tokens.skip(i - 1));
                assert(after.tokens() =~= before.tokens().skip(1));
                assert(tokens.skip(i - 1).skip(1) =~= tokens.skip(i));
                if i == tokens.len() {
                    assert(after.tokens() =~= Seq::empty());
                }
            },
            Ok(None) => {
                assert(after.tokens() =~= Seq::empty());
            },
            Err(_) => {},
        }
    }
}

/// When two tokens count as the same.
#[derive(Debug, Clone, Copy, PartialEq, Eq, Structural)]
pub enum TokenMode {
    Exact,
    CaseInsensitive,
}

pub open spec fn same_token(mode: TokenMode, expected: Seq<char>, actual: Seq<char>) -> bool {
    match mode {
        TokenMode::Exact => expected == actual,
        TokenMode::CaseInsensitive => text::lowercase_of(expected) == text::lowercase_of(actual),
    }
}

pub fn tokens_match(expected: &str, actual: &str, mode: TokenMode) -> (r: bool)
    ensures
        r == same_token(mode, expected@, actual@),
{
    match mode {
        TokenMode::Exact => str_eq(expected, actual),
        TokenMode::CaseInsensitive => str_eq(
            to_lower(expected).as_str(),
            to_lower(actual).as_str(),
        ),
    }
}

/// What numeric comparison found of two tokens.
#[derive(Debug, Clone, PartialEq, Eq)]
pub enum NumericPair {
    /// One of them is no number.
    NotNumbers,
    /// Both are numbers, and close enough (or the same non-finite value).
    Agree,
    /// Both are numbers, one of them is not finite, and they differ.
    NonFinite,
    /// Both are finite, and further apart than the tolerance.
    Apart { diff: String, tolerance: String },
}

pub open spec fn non_finite_text(pos: nat, expected: Seq<char>, actual: Seq<char>) -> Seq<char> {
    "Non-finite mismatch at token "@ + text::decimal_digits(pos) + ": expected "@ + util::truncated(
        expected,
        50,
    ) + ", got "@ + util::truncated(actual, 50)
}

pub open spec fn float_text(
    pos: nat,
    expected: Seq<char>,
    actual: Seq<char>,
    diff: Seq<char>,
    tolerance: Seq<char>,
) -> Seq<char> {
    "Float mismatch at token "@ + text::decimal_digits(pos) + ": expected "@ + expected + ", got "@
        + actual + ", diff "@ + diff + " > tolerance "@ + tolerance
}

/// The complaint about two tokens under numeric comparison, if there is one.
pub open spec fn numeric_complaint(
    pos: nat,
    expected: Seq<char>,
    actual: Seq<char>,
    found: NumericPair,
) -> Option<Seq<char>> {
    match found {
        NumericPair::NotNumbers => if expected == actual {
            None
        } else {
            Some(util::token_mismatch_text(pos, expected, actual))
        },
        NumericPair::Agree => None,
        NumericPair::NonFinite => Some(non_finite_text(pos, expected, actual)),
        NumericPair::Apart { diff, tolerance } => Some(
            float_text(pos, expected, actual, diff@, tolerance@),
        ),
    }
}

/// The verdict on two tokens that a numeric comparison rejects.
pub fn token_mismatch_verdict(
    position: usize,
    expected: &str,
    actual: &str,
    found: &NumericPair,
) -> (r: Option<CheckerVerdict>)
    ensures
        match numeric_complaint(position as nat, expected@, actual@, *found) {
            Some(text) => r matches Some(v) && types::says_wrong(v, text),
            None => r is None,
        },
        r is None <==> *found is Agree || (*found is NotNumbers && expected@ == actual@),
{
    match found {
        NumericPair::NotNumbers => {
            if str_eq(expected, actual) {
                None
            } else {
                Some(wrong(token_mismatch_msg(position, expected, actual)))
            }
        },
        NumericPair::Agree => None,
        NumericPair::NonFinite => {
            let mut out = "Non-finite mismatch at token ".to_owned();
            out.append(decimal(position as u64).as_str());
            out.append(": expected ");
            out.append(truncate(expected, 50).as_str());
            out.append(", got ");
            out.append(truncate(actual, 50).as_str());
            Some(wrong(out))
        },
        NumericPair::Apart { diff, tolerance } => {
            let mut out = "Float mismatch at token ".to_owned();
            out.append(decimal(position as u64).as_str());
            out.append(": expected ");
            out.append(expected);
            out.append(", got ");
            out.append(actual);
            out.append(", diff ");
            out.append(diff.as_str());
            out.append(" > tolerance ");
            out.append(tolerance.as_str());
            Some(wrong(out))
        },
    }
}

/// Two token streams, read in step.
pub struct TokenPairs<E, A> {
    expected: TokenStream<E>,
    actual: TokenStream<A>,
    position: usize,
}

/// The next two tokens, or the verdict once one side has ended.
#[derive(Debug, Clone, PartialEq, Eq)]
pub enum TokenStep {
    Pair { position: usize, expected: String, actual: String },
    Done(CheckerVerdict),
}

impl<E: ByteSource, A: ByteSource> TokenPairs<E, A> {
    pub closed spec fn may_fail(&self) -> bool {
        self.expected.may_fail() || self.actual.may_fail()
    }

    pub closed spec fn valid(&self) -> bool {
        self.expected.valid() && self.actual.valid()
    }

    pub closed spec fn expected_tokens(&self) -> Seq<Seq<char>> {
        self.expected.tokens()
    }

    pub closed spec fn actual_tokens(&self) -> Seq<Seq<char>> {
        self.actual.tokens()
    }

    /// The position, from one, of the next pair.
    pub closed spec fn at(&self) -> nat {
        self.position as nat
    }

    pub closed spec fn budget(&self) -> nat {
        self.expected.budget()
    }

    pub closed spec fn wf(&self) -> bool {
        &&& self.expected.wf()
        &&& self.actual.wf()
        &&& self.position >= 1
        &&& self.position + self.expected.budget() <= usize::MAX
        &&& self.position + self.actual.budget() <= usize::MAX
    }

    pub fn new(expected: E, actual: A) -> (r: Self)
        requires
            expected.remaining().len() < usize::MAX,
            actual.remaining().len() < usize::MAX,
        ensures
            r.wf(),
            r.at() == 1,
            r.may_fail() == (expected.may_fail() || actual.may_fail()),
            r.valid() == (valid_utf8(expected.remaining()) && valid_utf8(actual.remaining())),
            r.expected_tokens() == util::tokens_of(utf8::legible(expected.remaining())),
            r.actual_tokens() == util::tokens_of(utf8::legible(actual.remaining())),
    {
        TokenPairs {
            expected: TokenStream::new(expected),
            actual: TokenStream::new(actual),
            position: 1,
        }
    }

    pub fn next_pair(&mut self) -> (r: Result<TokenStep, String>)
        requires
            old(self).wf(),
        ensures
            final(self).may_fail() == old(self).may_fail(),
            r is Err ==> old(self).may_fail() || !old(self).valid(),
            r matches Ok(TokenStep::Pair { position, expected, actual }) ==> {
                &&& final(self).wf()
                &&& final(self).valid() == old(self).valid()
                &&& final(self).budget() < old(self).budget()
                &&& position == old(self).at()
                &&& final(self).at() == old(self).at() + 1
                &&& old(self).expected_tokens() == seq![expected@] + final(self).expected_tokens()
                &&& old(self).actual_tokens() == seq![actual@] + final(self).actual_tokens()
            },
            r matches Ok(TokenStep::Done(v)) ==> {
                let e = old(self).expected_tokens().len();
                let a = old(self).actual_tokens().len();
                let passed = (old(self).at() - 1) as nat;
                &&& old(self).valid()
                &&& e == 0 || a == 0
                &&& e == a ==> types::says_accepted(v)
                &&& e != a ==> types::says_wrong(
                    v,
                    util::token_count_text(passed + e, passed + a),
                )
            },
    {
        let exp = match self.expected.next_token() {
            Err(e) => {
                return Err(e);
            },
            Ok(t) => t,
        };
        let act = match self.actual.next_token() {
            Err(e) => {
                return Err(e);
            },
            Ok(t) => t,
        };
        match (exp, act) {
            (Some(expected), Some(actual)) => {
                let position: usize = self.position;
                self.position = position + 1;
                Ok(TokenStep::Pair { position, expected, actual })
            },
            (None, None) => Ok(TokenStep::Done(accepted())),
            (Some(_), None) => {
                match count_remaining_tokens(&mut self.expected) {
                    Err(e) => Err(e),
                    Ok(n) => {
                        let total: usize = self.position + n;
                        Ok(TokenStep::Done(wrong(token_count_msg(total, self.position - 1))))
                    },
                }
            },
            (None, Some(_)) => {
                match count_remaining_tokens(&mut self.actual) {
                    Err(e) => Err(e),
                    Ok(n) => {
                        let total: usize = self.position + n;
                        Ok(TokenStep::Done(wrong(token_count_msg(self.position - 1, total))))
                    },
                }
            },
        }
    }
}

proof fn lemma_all_legible(bytes: Seq<u8>)
    ensures
        valid_utf8(bytes) ==> utf8::legible(bytes) == decode_utf8(bytes),
{
    if valid_utf8(bytes) {
        utf8::lemma_legible_whole(bytes);
    }
}

/// How many leading tokens agree.
pub open spec fn agreeing_tokens(
    mode: TokenMode,
    expected: Seq<Seq<char>>,
    actual: Seq<Seq<char>>,
) -> nat
    decreases expected.len(),
{
    if expected.len() > 0 && actual.len() > 0 && same_token(mode, expected[0], actual[0]) {
        1 + agreeing_tokens(mode, expected.drop_first(), actual.drop_first())
    } else {
        0
    }
}

/// The verdict on the first pair of tokens that differs.
pub open spec fn tokens_differ(
    v: CheckerVerdict,
    mode: TokenMode,
    expected: Seq<Seq<char>>,
    actual: Seq<Seq<char>>,
) -> bool {
    let k = agreeing_tokens(mode, expected, actual);
    &&& k < expected.len()
    &&& k < actual.len()
    &&& types::says_wrong(
        v,
        util::token_mismatch_text(k + 1, expected[k as int], actual[k as int]),
    )
}

/// The verdict of reading two lists of tokens in step: the first pair that
/// differs, then the counts.
pub open spec fn tokens_verdict(
    v: CheckerVerdict,
    mode: TokenMode,
    expected: Seq<Seq<char>>,
    actual: Seq<Seq<char>>,
) -> bool {
    let k = agreeing_tokens(mode, expected, actual);
    if k < expected.len() && k < actual.len() {
        tokens_differ(v, mode, expected, actual)
    } else if expected.len() == actual.len() {
        types::says_accepted(v)
    } else {
        types::says_wrong(v, util::token_count_text(expected.len(), actual.len()))
    }
}

pub proof fn lemma_agreeing_skip(
    mode: TokenMode,
    e: Seq<Seq<char>>,
    a: Seq<Seq<char>>,
    k: nat,
)
    requires
        k <= e.len(),
        k <= a.len(),
        forall|i: int| 0 <= i < k ==> same_token(mode, #[trigger] e[i], a[i]),
    ensures
        agreeing_tokens(mode, e, a) == k + agreeing_tokens(mode, e.skip(k as int), a.skip(k as int)),
    decreases k,
{
    if k == 0 {
        assert(e.skip(0) =~= e);
        assert(a.skip(0) =~= a);
    } else {
        assert(same_token(mode, e[0], a[0]));
        let k1 = (k - 1) as nat;
        assert forall|i: int| 0 <= i < k1 implies same_token(
            mode,
            #[trigger] e.drop_first()[i],
            a.drop_first()[i],
        ) by {
            assert(same_token(mode, e[i + 1], a[i + 1]));
        }
        lemma_agreeing_skip(mode, e.drop_first(), a.drop_first(), k1);
        assert(e.drop_first().skip(k1 as int) =~= e.skip(k as int));
        assert(a.drop_first().skip(k1 as int) =~= a.skip(k as int));
    }
}

/// Compares the words of two sources.
#[verifier::loop_isolation(false)]
pub fn compare_tokens<E: ByteSource, A: ByteSource>(
    expected: E,
    actual: A,
    mode: TokenMode,
) -> (r: Result<CheckerVerdict, String>)
    requires
        expected.remaining().len() < usize::MAX,
        actual.remaining().len() < usize::MAX,
    ensures
        ({
            let valid = valid_utf8(expected.remaining()) && valid_utf8(actual.remaining());
            &&& r is Err ==> expected.may_fail() || actual.may_fail() || !valid
            &&& r matches Ok(v) ==> if valid {
                tokens_verdict(
                    v,
                    mode,
                    util::tokens_of(decode_utf8(expected.remaining())),
                    util::tokens_of(decode_utf8(actual.remaining())),
                )
            } else {
                tokens_differ(
                    v,
                    mode,
                    util::tokens_of(utf8::legible(expected.remaining())),
                    util::tokens_of(utf8::legible(actual.remaining())),
                )
            }
        }),
{
    let ghost e_all = util::tokens_of(utf8::legible(expected.remaining()));
    let ghost a_all = util::tokens_of(utf8::legible(actual.remaining()));
    proof {
        lemma_all_legible(expected.remaining());
        lemma_all_legible(actual.remaining());
    }
    let mut pairs = TokenPairs::new(expected, actual);
    let ghost start = pairs;
    let ghost mut k: nat = 0;
    proof {
        assert(e_all.skip(0) =~= e_all);
        assert(a_all.skip(0) =~= a_all);
    }
    loop
        invariant
            pairs.wf(),
            pairs.at() == k + 1,
            pairs.may_fail() == start.may_fail(),
            pairs.valid() == start.valid(),
            k <= e_all.len(),
            k <= a_all.len(),
            pairs.expected_tokens() == e_all.skip(k as int),
            pairs.actual_tokens() == a_all.skip(k as int),
            forall|i: int| 0 <= i < k ==> same_token(mode, #[trigger] e_all[i], a_all[i]),
        decreases pairs.budget(),
    {
        match pairs.next_pair() {
            Err(e) => {
                return Err(e);
            },
            Ok(TokenStep::Done(v)) => {
                proof {
                    lemma_agreeing_skip(mode, e_all, a_all, k);
                }
                return Ok(v);
            },
            Ok(TokenStep::Pair { position, expected, actual }) => {
                proof {
                    assert(e_all.skip(k as int)[0] == expected@);
                    assert(a_all.skip(k as int)[0] == actual@);
                    assert(e_all[k as int] == expected@);
                    assert(a_all[k as int] == actual@);
                    assert(e_all.skip(k as int).drop_first() =~= e_all.skip(k as int + 1));
                    assert(a_all.skip(k as int).drop_first() =~= a_all.skip(k as int + 1));
                    assert(pairs.expected_tokens() =~= e_all.skip(k as int + 1));
                    assert(pairs.actual_tokens() =~= a_all.skip(k as int + 1));
                }
                if !tokens_match(expected.as_str(), actual.as_str(), mode) {
                    proof {
                        lemma_agreeing_skip(mode, e_all, a_all, k);
                    }
                    return Ok(
                        wrong(token_mismatch_msg(position, expected.as_str(), actual.as_str())),
                    );
                }
                proof {
                    k = k + 1;
                }
            },
        }
    }
}

// ---------------------------------------------------------------------------
// Numbers
// ---------------------------------------------------------------------------

/// `found` is what `numeric` can say of these two tokens.
pub open spec fn can_find<F: Fn(&str, &str) -> NumericPair>(
    numeric: F,
    expected: Seq<char>,
    actual: Seq<char>,
    found: NumericPair,
) -> bool {
    exists|x: &str, y: &str|
        x@ == expected && y@ == actual && #[trigger] call_ensures(numeric, (x, y), found)
}

/// `founds` is what `numeric` can say of the leading tokens, one by one.
pub open spec fn can_find_all<F: Fn(&str, &str) -> NumericPair>(
    numeric: F,
    expected: Seq<Seq<char>>,
    actual: Seq<Seq<char>>,
    founds: Seq<NumericPair>,
) -> bool {
    &&& founds.len() <= expected.len()
    &&& founds.len() <= actual.len()
    &&& forall|i: int|
        0 <= i < founds.len() ==> can_find(numeric, expected[i], actual[i], #[trigger] founds[i])
}

/// No complaint about the first `n` pairs.
pub open spec fn no_complaint_before(
    expected: Seq<Seq<char>>,
    actual: Seq<Seq<char>>,
    founds: Seq<NumericPair>,
    n: int,
) -> bool {
    forall|i: int|
        0 <= i < n ==> numeric_complaint(
            (i + 1) as nat,
            expected[i],
            actual[i],
            #[trigger] founds[i],
        ) is None
}

/// The verdict on the last of the pairs that were found: the first to complain
/// about.
pub open spec fn numeric_differ(
    v: CheckerVerdict,
    expected: Seq<Seq<char>>,
    actual: Seq<Seq<char>>,
    founds: Seq<NumericPair>,
) -> bool {
    let n = founds.len() as int;
    &&& n > 0
    &&& no_complaint_before(expected, actual, founds, n - 1)
    &&& match numeric_complaint(n as nat, expected[n - 1], actual[n - 1], founds[n - 1]) {
        Some(text) => types::says_wrong(v, text),
        None => false,
    }
}

/// The verdict of numeric comparison in step, given what was found of the
/// leading pairs: the first complaint ends it, else the counts decide.
pub open spec fn numeric_verdict(
    v: CheckerVerdict,
    expected: Seq<Seq<char>>,
    actual: Seq<Seq<char>>,
    founds: Seq<NumericPair>,
) -> bool {
    let n = founds.len() as int;
    ||| numeric_differ(v, expected, actual, founds)
    ||| (no_complaint_before(expected, actual, founds, n) && (n == expected.len() || n
        == actual.len()) && (if expected.len() == actual.len() {
        types::says_accepted(v)
    } else {
        types::says_wrong(v, util::token_count_text(expected.len(), actual.len()))
    }))
}

/// Compares the words of two sources, numbers by `numeric`.
#[verifier::loop_isolation(false)]
pub fn compare_numeric<E: ByteSource, A: ByteSource, F: Fn(&str, &str) -> NumericPair>(
    expected: E,
    actual: A,
    numeric: F,
) -> (r: Result<CheckerVerdict, String>)
    requires
        expected.remaining().len() < usize::MAX,
        actual.remaining().len() < usize::MAX,
        forall|x: &str, y: &str| #[trigger] call_requires(numeric, (x, y)),
    ensures
        ({
            let valid = valid_utf8(expected.remaining()) && valid_utf8(actual.remaining());
            let e = util::tokens_of(decode_utf8(expected.remaining()));
            let a = util::tokens_of(decode_utf8(actual.remaining()));
            &&& r is Err ==> expected.may_fail() || actual.may_fail() || !valid
            &&& r matches Ok(v) ==> if valid {
                exists|founds: Seq<NumericPair>| #[trigger]
                    can_find_all(numeric, e, a, founds) && numeric_verdict(v, e, a, founds)
            } else {
                let e = util::tokens_of(utf8::legible(expected.remaining()));
                let a = util::tokens_of(utf8::legible(actual.remaining()));
                exists|founds: Seq<NumericPair>| #[trigger]
                    can_find_all(numeric, e, a, founds) && numeric_differ(v, e, a, founds)
            }
        }),
{
    let ghost e_all = util::tokens_of(utf8::legible(expected.remaining()));
    let ghost a_all = util::tokens_of(utf8::legible(actual.remaining()));
    proof {
        lemma_all_legible(expected.remaining());
        lemma_all_legible(actual.remaining());
    }
    let mut pairs = TokenPairs::new(expected, actual);
    let ghost start = pairs;
    let ghost mut founds: Seq<NumericPair> = Seq::empty();
    proof {
        assert(e_all.skip(0) =~= e_all);
        assert(a_all.skip(0) =~= a_all);
    }
    loop
        invariant
            pairs.wf(),
            pairs.at() == founds.len() + 1,
            pairs.may_fail() == start.may_fail(),
            pairs.valid() == start.valid(),
            can_find_all(numeric, e_all, a_all, founds),
            no_complaint_before(e_all, a_all, founds, founds.len() as int),
            pairs.expected_tokens() == e_all.skip(founds.len() as int),
            pairs.actual_tokens() == a_all.skip(founds.len() as int),
        decreases pairs.budget(),
    {
        let ghost k = founds.len() as int;
        match pairs.next_pair() {
            Err(e) => {
                return Err(e);
            },
            Ok(TokenStep::Done(v)) => {
                proof {
                    assert(numeric_verdict(v, e_all, a_all, founds));
                }
                return Ok(v);
            },
            Ok(TokenStep::Pair { position, expected, actual }) => {
                let ghost prior = founds;
                proof {
                    assert(e_all.skip(k)[0] == expected@);
                    assert(a_all.skip(k)[0] == actual@);
                    assert(e_all[k] == expected@);
                    assert(a_all[k] == actual@);
                    assert(e_all.skip(k).drop_first() =~= e_all.skip(k + 1));
                    assert(a_all.skip(k).drop_first() =~= a_all.skip(k + 1));
                    assert(pairs.expected_tokens() =~= e_all.skip(k + 1));
                    assert(pairs.actual_tokens() =~= a_all.skip(k + 1));
                }
                let found = numeric(expected.as_str(), actual.as_str());
                proof {
                    founds = founds.push(found);
                    assert(can_find(numeric, e_all[k], a_all[k], found));
                    assert(can_find_all(numeric, e_all, a_all, founds)) by {
                        assert forall|i: int| 0 <= i < founds.len() implies can_find(
                            numeric,
                            e_all[i],
                            a_all[i],
                            #[trigger] founds[i],
                        ) by {
                            if i < k {
                                assert(founds[i] == prior[i]);
                            }
                        }
                    }
                    assert forall|i: int| 0 <= i < k implies numeric_complaint(
                        (i + 1) as nat,
                        e_all[i],
                        a_all[i],
                        #[trigger] founds[i],
                    ) is None by {
                        assert(founds[i] == prior[i]);
                    }
                    assert(no_complaint_before(e_all, a_all, founds, k));
                }
                match token_mismatch_verdict(position, expected.as_str(), actual.as_str(), &found) {
                    Some(v) => {
                        proof {
                            assert(numeric_differ(v, e_all, a_all, founds));
                        }
                        return Ok(v);
                    },
                    None => {},
                }
            },
        }
    }
}

// ---------------------------------------------------------------------------
// Lines
// ---------------------------------------------------------------------------

/// The lines of a source of UTF-8, trimmed at their ends and without the empty
/// ones at the end of the text.
pub struct LineStream<S> {
    chars: CharStream<S>,
    current: String,
    pending_empty: usize,
    queued: VecDeque<String>,
}

/// So many empty lines.
pub open spec fn empty_lines(n: nat) -> Seq<Seq<char>> {
    Seq::new(n, |i: int| Seq::<char>::empty())
}

proof fn lemma_drop_trailing_after(p: Seq<Seq<char>>, rest: Seq<Seq<char>>)
    requires
        p.len() > 0,
        p.last().len() > 0,
    ensures
        util::drop_trailing_empty(p + rest) == p + util::drop_trailing_empty(rest),
    decreases rest.len(),
{
    let all = p + rest;
    if rest.len() == 0 {
        assert(all =~= p);
        assert(p + util::drop_trailing_empty(rest) =~= p);
    } else {
        assert(all.last() == rest.last());
        if rest.last().len() == 0 {
            assert(all.drop_last() =~= p + rest.drop_last());
            lemma_drop_trailing_after(p, rest.drop_last());
        }
    }
}

proof fn lemma_drop_all_empty(n: nat)
    ensures
        util::drop_trailing_empty(empty_lines(n)) == Seq::<Seq<char>>::empty(),
    decreases n,
{
    if n > 0 {
        assert(empty_lines(n).drop_last() =~= empty_lines((n - 1) as nat));
        lemma_drop_all_empty((n - 1) as nat);
    } else {
        assert(empty_lines(n) =~= Seq::<Seq<char>>::empty());
    }
}

impl<S: ByteSource> LineStream<S> {
    pub closed spec fn may_fail(&self) -> bool {
        self.chars.may_fail()
    }

    pub closed spec fn valid(&self) -> bool {
        self.chars.valid()
    }

    spec fn raw(&self) -> Seq<Seq<char>> {
        util::lines_of(self.current@ + self.chars.text())
    }

    /// The lines still to come.
    pub closed spec fn lines(&self) -> Seq<Seq<char>> {
        text::views(self.queued@) + util::drop_trailing_empty(
            empty_lines(self.pending_empty as nat) + util::right_trimmed(self.raw()),
        )
    }

    /// A bound on the number of lines still to come.
    pub closed spec fn budget(&self) -> nat {
        self.queued@.len() + self.pending_empty as nat + self.chars.budget()
    }

    pub closed spec fn wf(&self) -> bool {
        self.chars.wf() && self.current@.len() == 0 && self.budget() <= usize::MAX
    }

    /// A stream at the start of these bytes.
    pub open spec fn starts(self, bytes: Seq<u8>) -> bool {
        &&& self.wf()
        &&& self.valid() == valid_utf8(bytes)
        &&& self.lines() == util::trimmed_lines(utf8::legible(bytes))
    }

    /// What a read may come to, and what it leaves.
    pub open spec fn reads(self, r: Result<Option<String>, String>, after: Self) -> bool {
        &&& after.may_fail() == self.may_fail()
        &&& r is Err ==> self.may_fail() || !self.valid()
        &&& r is Ok ==> after.wf() && after.valid() == self.valid()
        &&& r matches Ok(Some(l)) ==> after.budget() < self.budget() && self.lines() == seq![l@]
            + after.lines()
        &&& r matches Ok(None) ==> self.valid() && self.lines().len() == 0 && after.lines().len()
            == 0
    }

    pub fn new(source: S) -> (r: Self)
        requires
            source.remaining().len() <= usize::MAX,
        ensures
            r.starts(source.remaining()),
            r.may_fail() == source.may_fail(),
            r.budget() == source.remaining().len(),
    {
        let r = LineStream {
            chars: CharStream::new(source),
            current: String::new(),
            pending_empty: 0,
            queued: VecDeque::new(),
        };
        proof {
            assert(text::views(r.queued@) =~= Seq::<Seq<char>>::empty());
            assert(r.current@ + r.chars.text() =~= r.chars.text());
            assert(empty_lines(0) + util::right_trimmed(r.raw()) =~= util::right_trimmed(r.raw()));
            assert(r.lines() =~= util::drop_trailing_empty(util::right_trimmed(r.raw())));
        }
        r
    }

    /// The next line, or `None` when only empty ones are left.
    pub fn next_line(&mut self) -> (r: Result<Option<String>, String>)
        requires
            old(self).wf(),
        ensures
            old(self).reads(r, *final(self)),
    {
        let ghost start = *self;
        loop
            invariant
                self.wf(),
                self.may_fail() == start.may_fail(),
                self.valid() == start.valid(),
                self.lines() == start.lines(),
                self.budget() <= start.budget(),
                start == *old(self),
            decreases self.chars.budget(),
        {
            let ghost before = *self;
            match self.queued.pop_front() {
                Some(line) => {
                    proof {
                        assert(self.queued@ =~= before.queued@.drop_first());
                        assert(text::views(before.queued@) =~= seq![line@] + text::views(self.queued@));
                        assert(before.lines() =~= seq![line@] + self.lines());
                    }
                    return Ok(Some(line));
                },
                None => {},
            }
            assert(self.queued@ =~= before.queued@);
            assert(text::views(self.queued@) =~= Seq::<Seq<char>>::empty());
            match self.next_raw_line() {
                Err(e) => {
                    return Err(e);
                },
                Ok(Some(raw)) => {
                    let line = trim_end(raw.as_str());
                    let ghost k = self.pending_empty as nat;
                    let ghost rest = util::right_trimmed(self.raw());
                    proof {
                        util::lemma_right_trimmed_cons(raw@, self.raw());
                        assert(before.lines() =~= util::drop_trailing_empty(
                            empty_lines(k) + (seq![line@] + rest),
                        ));
                    }
                    if line.as_str().is_empty() {
                        self.pending_empty += 1;
                        proof {
                            assert(line@ =~= Seq::<char>::empty());
                            assert(empty_lines(k) + (seq![line@] + rest) =~= empty_lines(k + 1)
                                + rest);
                            assert(self.lines() =~= before.lines());
                        }
                    } else {
                        let ghost mid = *self;
                        let mut i: usize = 0;
                        while i < self.pending_empty
                            invariant
                                i <= self.pending_empty,
                                self.pending_empty == mid.pending_empty,
                                self.chars == mid.chars,
                                self.current == mid.current,
                                text::views(self.queued@) == empty_lines(i as nat),
                            decreases self.pending_empty - i,
                        {
                            let blank = String::new();
                            proof {
                                text::lemma_views_push(self.queued@, blank);
                                assert(empty_lines(i as nat + 1) =~= empty_lines(i as nat).push(
                                    blank@,
                                ));
                            }
                            self.queued.push_back(blank);
                            i += 1;
                        }
                        self.pending_empty = 0;
                        proof {
                            text::lemma_views_push(self.queued@, line);
                            assert(text::views(self.queued@).len() == k);
                        }
                        self.queued.push_back(line);
                        proof {
                            assert(text::views(self.queued@).len() == k + 1);
                            let p = empty_lines(k).push(line@);
                            assert(text::views(self.queued@) =~= p);
                            assert(empty_lines(k) + (seq![line@] + rest) =~= p + rest);
                            lemma_drop_trailing_after(p, rest);
                            assert(empty_lines(0) + rest =~= rest);
                            assert(self.lines() =~= p + util::drop_trailing_empty(rest));
                        }
                    }
                },
                Ok(None) => {
                    proof {
                        lemma_drop_all_empty(self.pending_empty as nat);
                        assert(util::right_trimmed(self.raw()) =~= Seq::<Seq<char>>::empty());
                        assert(empty_lines(self.pending_empty as nat) + util::right_trimmed(self.raw())
                            =~= empty_lines(self.pending_empty as nat));
                        assert(util::right_trimmed(before.raw()) =~= Seq::<Seq<char>>::empty());
                        assert(before.lines() =~= Seq::<Seq<char>>::empty());
                        lemma_drop_all_empty(0);
                    }
                    self.pending_empty = 0;
                    proof {
                        assert(empty_lines(0) + util::right_trimmed(self.raw()) =~= empty_lines(0));
                        assert(self.lines() =~= Seq::<Seq<char>>::empty());
                    }
                    return Ok(None);
                },
            }
        }
    }

    fn next_raw_line(&mut self) -> (r: Result<Option<String>, String>)
        requires
            old(self).wf(),
        ensures
            final(self).may_fail() == old(self).may_fail(),
            final(self).queued == old(self).queued,
            final(self).pending_empty == old(self).pending_empty,
            r is Err ==> old(self).may_fail() || !old(self).valid(),
            r is Ok ==> final(self).chars.wf() && final(self).current@.len() == 0
                && final(self).valid() == old(self).valid()
                && final(self).chars.budget() <= old(self).chars.budget(),
            r matches Ok(Some(l)) ==> final(self).chars.budget() < old(self).chars.budget()
                && old(self).raw() == seq![l@] + final(self).raw(),
            r matches Ok(None) ==> old(self).valid() && old(self).raw().len() == 0
                && final(self).raw().len() == 0,
    {
        let ghost start = *self;
        let ghost mut whole: Seq<char> = self.chars.text();
        assert(self.current@ + self.chars.text() =~= self.chars.text());
        loop
            invariant
                self.chars.wf(),
                self.may_fail() == start.may_fail(),
                self.valid() == start.valid(),
                start.raw() == util::lines_of(self.current@ + self.chars.text()),
                forall|i: int| 0 <= i < self.current@.len() ==> #[trigger] self.current@[i] != '\n',
                self.queued == start.queued,
                self.pending_empty == start.pending_empty,
                self.chars.budget() + self.current@.len() <= start.chars.budget(),
                start == *old(self),
            decreases self.chars.budget(),
        {
            let ghost cur = self.current@;
            let ghost before = self.chars.text();
            let step = self.chars.next_char();
            match step {
                Err(e) => {
                    return Err(e);
                },
                Ok(Some(c)) => {
                    if c == '\n' {
                        let mut line = String::new();
                        std::mem::swap(&mut line, &mut self.current);
                        let out = without_cr(line);
                        proof {
                            let s = cur + before;
                            assert(s[cur.len() as int] == c);
                            assert forall|i: int| 0 <= i < cur.len() implies #[trigger] s[i]
                                != '\n' by {
                                assert(s[i] == cur[i]);
                            }
                            util::lemma_line_len_is(s, cur.len());
                            assert(s.take(cur.len() as int) =~= cur);
                            assert(s.skip(cur.len() as int + 1) =~= self.chars.text());
                            assert(self.current@ + self.chars.text() =~= self.chars.text());
                        }
                        return Ok(Some(out));
                    }
                    self.current.push(c);
                    proof {
                        assert(cur + before =~= self.current@ + self.chars.text());
                    }
                },
                Ok(None) => {
                    proof {
                        assert(before =~= Seq::<char>::empty());
                        assert(self.chars.text() =~= Seq::<char>::empty());
                        assert(cur + before =~= cur);
                    }
                    if self.current.as_str().is_empty() {
                        return Ok(None);
                    }
                    let mut line = String::new();
                    std::mem::swap(&mut line, &mut self.current);
                    proof {
                        util::lemma_line_len_is(cur, cur.len());
                        assert(util::lines_of(cur) =~= seq![cur]);
                        assert(self.current@ + self.chars.text() =~= Seq::<char>::empty());
                        assert(seq![cur] + self.raw() =~= seq![cur]);
                    }
                    return Ok(Some(line));
                },
            }
        }
    }
}

/// A line that ended in a line feed, without the carriage return before it.
fn without_cr(line: String) -> (r: String)
    ensures
        r@ == util::strip_cr(line@),
{
    let chars = crate::text::chars_of(line.as_str());
    let n: usize = chars.len();
    if n > 0 && chars[n - 1] == '\r' {
        let r = crate::text::string_of_range(&chars, 0, n - 1);
        assert(r@ =~= line@.drop_last());
        r
    } else {
        line
    }
}

fn count_remaining_lines<S: ByteSource>(stream: &mut LineStream<S>) -> (r: Result<usize, String>)
    requires
        old(stream).wf(),
    ensures
        final(stream).may_fail() == old(stream).may_fail(),
        r is Err ==> old(stream).may_fail() || !old(stream).valid(),
        r matches Ok(n) ==> old(stream).valid() && n == old(stream).lines().len()
            && n <= old(stream).budget(),
{
    let ghost start = *stream;
    let mut count: usize = 0;
    loop
        invariant
            stream.wf(),
            stream.may_fail() == start.may_fail(),
            stream.valid() == start.valid(),
            stream.valid() ==> count + stream.lines().len() == start.lines().len(),
            count + stream.budget() <= start.budget(),
            start.wf(),
            start == *old(stream),
        decreases stream.budget(),
    {
        match stream.next_line() {
            Err(e) => {
                return Err(e);
            },
            Ok(Some(_)) => {
                count += 1;
            },
            Ok(None) => {
                return Ok(count);
            },
        }
    }
}

/// Read one after the other, the lines of a text that can be read come out in
/// order: those that the line checkers compare, each once. After the last every
/// read gives nothing, and none fails. `states` are the stream before each read
/// and after the last one.
pub proof fn lines_are_read_in_order<S: ByteSource>(
    bytes: Seq<u8>,
    states: Seq<LineStream<S>>,
    results: Seq<Result<Option<String>, String>>,
    i: int,
)
    requires
        states.len() == results.len() + 1,
        valid_utf8(bytes),
        states[0].starts(bytes),
        !states[0].may_fail(),
        forall|k: int|
            0 <= k < results.len() ==> states[k].reads(#[trigger] results[k], states[k + 1]),
        0 <= i < results.len(),
    ensures
        ({
            let lines = util::trimmed_lines(decode_utf8(bytes));
            if i < lines.len() {
                results[i] matches Ok(Some(l)) && l@ == lines[i]
            } else {
                results[i] matches Ok(None)
            }
        }),
{
    lemma_all_legible(bytes);
    lemma_lines_left(bytes, states, results, i);
    assert(states[i].reads(results[i], states[i + 1]));
    let lines = util::trimmed_lines(decode_utf8(bytes));
    if i < lines.len() {
        assert(states[i].lines()[0] == lines[i]);
    }
}

proof fn lemma_lines_left<S: ByteSource>(
    bytes: Seq<u8>,
    states: Seq<LineStream<S>>,
    results: Seq<Result<Option<String>, String>>,
    i: int,
)
    requires
        states.len() == results.len() + 1,
        valid_utf8(bytes),
        states[0].starts(bytes),
        !states[0].may_fail(),
        forall|k: int|
            0 <= k < results.len() ==> states[k].reads(#[trigger] results[k], states[k + 1]),
        0 <= i <= results.len(),
    ensures
        states[i].valid(),
        !states[i].may_fail(),
        ({
            let lines = util::trimmed_lines(decode_utf8(bytes));
            states[i].lines() == if i < lines.len() {
                lines.skip(i)
            } else {
                Seq::empty()
            }
        }),
    decreases i,
{
    let lines = util::trimmed_lines(decode_utf8(bytes));
    lemma_all_legible(bytes);
    if i == 0 {
        assert(lines.skip(0) =~= lines);
        if lines.len() == 0 {
            assert(lines =~= Seq::empty());
        }
    } else {
        lemma_lines_left(bytes, states, results, i - 1);
        let before = states[i - 1];
        let after = states[i];
        assert(before.reads(results[i - 1], after));
        match results[i - 1] {
            Ok(Some(l)) => {
                assert(before.lines() == lines.skip(i - 1));
                assert(after.lines() =~= before.lines().skip(1));
                assert(lines.skip(i - 1).skip(1) =~= lines.skip(i));
                if i == lines.len() {
                    assert(after.lines() =~= Seq::empty());
                }
            },
            Ok(None) => {
                assert(after.lines() =~= Seq::empty());
            },
            Err(_) => {},
        }
    }
}

/// How many leading lines are equal.
pub open spec fn equal_lines(expected: Seq<Seq<char>>, actual: Seq<Seq<char>>) -> nat
    decreases expected.len(),
{
    if expected.len() > 0 && actual.len() > 0 && expected[0] == actual[0] {
        1 + equal_lines(expected.drop_first(), actual.drop_first())
    } else {
        0
    }
}

/// The verdict on the first line that differs.
pub open spec fn lines_differ(
    v: CheckerVerdict,
    expected: Seq<Seq<char>>,
    actual: Seq<Seq<char>>,
) -> bool {
    let k = equal_lines(expected, actual);
    &&& k < expected.len()
    &&& k < actual.len()
    &&& types::says_wrong(
        v,
        util::line_mismatch_text(k + 1, expected[k as int], actual[k as int]),
    )
}

/// The verdict of reading two lists of lines in step: the first line that
/// differs, then the counts.
pub open spec fn lines_verdict(
    v: CheckerVerdict,
    expected: Seq<Seq<char>>,
    actual: Seq<Seq<char>>,
) -> bool {
    let k = equal_lines(expected, actual);
    if k < expected.len() && k < actual.len() {
        lines_differ(v, expected, actual)
    } else if expected.len() == actual.len() {
        types::says_accepted(v)
    } else {
        types::says_wrong(v, util::line_count_text(expected.len(), actual.len()))
    }
}

pub proof fn lemma_equal_lines_skip(e: Seq<Seq<char>>, a: Seq<Seq<char>>, k: nat)
    requires
        k <= e.len(),
        k <= a.len(),
        forall|i: int| 0 <= i < k ==> #[trigger] e[i] == a[i],
    ensures
        equal_lines(e, a) == k + equal_lines(e.skip(k as int), a.skip(k as int)),
    decreases k,
{
    if k == 0 {
        assert(e.skip(0) =~= e);
        assert(a.skip(0) =~= a);
    } else {
        assert(e[0] == a[0]);
        let k1 = (k - 1) as nat;
        assert forall|i: int| 0 <= i < k1 implies #[trigger] e.drop_first()[i]
            == a.drop_first()[i] by {
            assert(e[i + 1] == a[i + 1]);
        }
        lemma_equal_lines_skip(e.drop_first(), a.drop_first(), k1);
        assert(e.drop_first().skip(k1 as int) =~= e.skip(k as int));
        assert(a.drop_first().skip(k1 as int) =~= a.skip(k as int));
    }
}

/// Compares the lines of two sources.
#[verifier::loop_isolation(false)]
#[verifier::rlimit(60)]
pub fn compare_lines<E: ByteSource, A: ByteSource>(expected: E, actual: A) -> (r: Result<
    CheckerVerdict,
    String,
>)
    requires
        expected.remaining().len() < usize::MAX,
        actual.remaining().len() < usize::MAX,
    ensures
        ({
            let valid = valid_utf8(expected.remaining()) && valid_utf8(actual.remaining());
            &&& r is Err ==> expected.may_fail() || actual.may_fail() || !valid
            &&& r matches Ok(v) ==> if valid {
                lines_verdict(
                    v,
                    util::trimmed_lines(decode_utf8(expected.remaining())),
                    util::trimmed_lines(decode_utf8(actual.remaining())),
                )
            } else {
                lines_differ(
                    v,
                    util::trimmed_lines(utf8::legible(expected.remaining())),
                    util::trimmed_lines(utf8::legible(actual.remaining())),
                )
            }
        }),
{
    let ghost e_all = util::trimmed_lines(utf8::legible(expected.remaining()));
    let ghost a_all = util::trimmed_lines(utf8::legible(actual.remaining()));
    proof {
        lemma_all_legible(expected.remaining());
        lemma_all_legible(actual.remaining());
    }
    let mut exp = LineStream::new(expected);
    let mut act = LineStream::new(actual);
    let ghost exp0 = exp;
    let ghost act0 = act;
    let mut line_no: usize = 1;
    proof {
        assert(e_all.skip(0) =~= e_all);
        assert(a_all.skip(0) =~= a_all);
    }
    loop
        invariant
            exp.wf(),
            act.wf(),
            exp.may_fail() == exp0.may_fail(),
            act.may_fail() == act0.may_fail(),
            exp.valid() == exp0.valid(),
            act.valid() == act0.valid(),
            line_no >= 1,
            line_no + exp.budget() <= usize::MAX,
            line_no + act.budget() <= usize::MAX,
            line_no - 1 <= e_all.len(),
            line_no - 1 <= a_all.len(),
            exp.lines() == e_all.skip(line_no - 1),
            act.lines() == a_all.skip(line_no - 1),
            forall|i: int| 0 <= i < line_no - 1 ==> #[trigger] e_all[i] == a_all[i],
        decreases exp.budget(),
    {
        let ghost k = (line_no - 1) as nat;
        let left = match exp.next_line() {
            Err(e) => {
                return Err(e);
            },
            Ok(l) => l,
        };
        let right = match act.next_line() {
            Err(e) => {
                return Err(e);
            },
            Ok(l) => l,
        };
        proof {
            lemma_equal_lines_skip(e_all, a_all, k);
        }
        match (left, right) {
            (Some(l), Some(r)) => {
                proof {
                    assert(e_all.skip(k as int)[0] == l@);
                    assert(a_all.skip(k as int)[0] == r@);
                    assert(e_all[k as int] == l@);
                    assert(a_all[k as int] == r@);
                    assert(e_all.skip(k as int).drop_first() =~= e_all.skip(k as int + 1));
                    assert(a_all.skip(k as int).drop_first() =~= a_all.skip(k as int + 1));
                    assert(exp.lines() =~= e_all.skip(k as int + 1));
                    assert(act.lines() =~= a_all.skip(k as int + 1));
                }
                if !str_eq(l.as_str(), r.as_str()) {
                    return Ok(wrong(line_mismatch_msg(line_no, l.as_str(), r.as_str())));
                }
            },
            (None, None) => {
                return Ok(accepted());
            },
            (Some(_), None) => {
                return match count_remaining_lines(&mut exp) {
                    Err(e) => Err(e),
                    Ok(n) => Ok(wrong(line_count_msg(line_no + n, line_no - 1))),
                };
            },
            (None, Some(_)) => {
                return match count_remaining_lines(&mut act) {
                    Err(e) => Err(e),
                    Ok(n) => Ok(wrong(line_count_msg(line_no - 1, line_no + n))),
                };
            },
        }
        line_no += 1;
    }
}

// ---------------------------------------------------------------------------
// All formats
// ---------------------------------------------------------------------------

/// The verdict on sources that are not text to their ends: a difference was
/// found in what is legible before.
pub open spec fn unread_verdict<F: Fn(&str, &str) -> NumericPair>(
    v: CheckerVerdict,
    format: StreamingFormat,
    e: Seq<char>,
    a: Seq<char>,
    numeric: F,
) -> bool {
    match format {
        StreamingFormat::Exact => false,
        StreamingFormat::Lines => lines_differ(v, util::trimmed_lines(e), util::trimmed_lines(a)),
        StreamingFormat::Tokens => tokens_differ(
            v,
            TokenMode::Exact,
            util::tokens_of(e),
            util::tokens_of(a),
        ),
        StreamingFormat::TokensCaseInsensitive => tokens_differ(
            v,
            TokenMode::CaseInsensitive,
            util::tokens_of(e),
            util::tokens_of(a),
        ),
        StreamingFormat::TokensFloat => exists|founds: Seq<NumericPair>| #[trigger]
            can_find_all(numeric, util::tokens_of(e), util::tokens_of(a), founds)
                && numeric_differ(v, util::tokens_of(e), util::tokens_of(a), founds),
    }
}

/// What a comparison of all bytes of two sources may come to.
pub open spec fn streaming_verdict<F: Fn(&str, &str) -> NumericPair>(
    v: CheckerVerdict,
    format: StreamingFormat,
    expected: Seq<u8>,
    actual: Seq<u8>,
    numeric: F,
) -> bool {
    if format is Exact {
        exact_verdict(v, expected, actual)
    } else if !(valid_utf8(expected) && valid_utf8(actual)) {
        unread_verdict(v, format, utf8::legible(expected), utf8::legible(actual), numeric)
    } else {
        let e = decode_utf8(expected);
        let a = decode_utf8(actual);
        match format {
            StreamingFormat::Exact => true,
            StreamingFormat::Lines => lines_verdict(v, util::trimmed_lines(e), util::trimmed_lines(a)),
            StreamingFormat::Tokens => tokens_verdict(
                v,
                TokenMode::Exact,
                util::tokens_of(e),
                util::tokens_of(a),
            ),
            StreamingFormat::TokensCaseInsensitive => tokens_verdict(
                v,
                TokenMode::CaseInsensitive,
                util::tokens_of(e),
                util::tokens_of(a),
            ),
            StreamingFormat::TokensFloat => exists|founds: Seq<NumericPair>| #[trigger]
                can_find_all(numeric, util::tokens_of(e), util::tokens_of(a), founds)
                    && numeric_verdict(
                    v,
                    util::tokens_of(e),
                    util::tokens_of(a),
                    founds,
                ),
        }
    }
}

/// What a comparison of two sources may come to. It fails only where a read of
/// one of them can fail, or where they must be text and are not.
pub open spec fn streaming_outcome<F: Fn(&str, &str) -> NumericPair>(
    r: Result<CheckerVerdict, String>,
    format: StreamingFormat,
    expected: Seq<u8>,
    actual: Seq<u8>,
    may_fail: bool,
    numeric: F,
) -> bool {
    match r {
        Ok(v) => streaming_verdict(v, format, expected, actual, numeric),
        Err(_) => may_fail || !readable(format, expected, actual),
    }
}

/// The bytes are what the format reads: text, but for a comparison of bytes.
pub open spec fn readable(format: StreamingFormat, expected: Seq<u8>, actual: Seq<u8>) -> bool {
    format is Exact || (valid_utf8(expected) && valid_utf8(actual))
}

/// Compares two sources by a format. `numeric` compares two tokens as numbers.
pub fn check_streaming<E: ByteSource, A: ByteSource, F: Fn(&str, &str) -> NumericPair>(
    format: StreamingFormat,
    expected: E,
    actual: A,
    numeric: F,
) -> (r: Result<CheckerVerdict, String>)
    requires
        expected.remaining().len() < usize::MAX,
        actual.remaining().len() < usize::MAX,
        forall|x: &str, y: &str| #[trigger] call_requires(numeric, (x, y)),
    ensures
        streaming_outcome(
            r,
            format,
            expected.remaining(),
            actual.remaining(),
            expected.may_fail() || actual.may_fail(),
            numeric,
        ),
        expected.remaining() == actual.remaining() && !readable(
            format,
            expected.remaining(),
            actual.remaining(),
        ) && !(format is TokensFloat) ==> r is Err,
{
    proof {
        if !readable(format, expected.remaining(), expected.remaining()) && !(format
            is TokensFloat) {
            lemma_no_difference(expected.remaining());
        }
    }
    match format {
        StreamingFormat::Exact => compare_exact(expected, actual),
        StreamingFormat::Lines => compare_lines(expected, actual),
        StreamingFormat::Tokens => compare_tokens(expected, actual, TokenMode::Exact),
        StreamingFormat::TokensCaseInsensitive => compare_tokens(
            expected,
            actual,
            TokenMode::CaseInsensitive,
        ),
        StreamingFormat::TokensFloat => compare_numeric(expected, actual, numeric),
    }
}

// ---------------------------------------------------------------------------
// Laws
// ---------------------------------------------------------------------------

/// Two verdicts that say the same.
pub open spec fn same_verdict(a: CheckerVerdict, b: CheckerVerdict) -> bool {
    &&& a.verdict == b.verdict
    &&& a.score == b.score
    &&& text::opt_view(a.message) == text::opt_view(b.message)
}

/// Two findings that say the same of two tokens.
pub open spec fn same_finding(a: NumericPair, b: NumericPair) -> bool {
    match (a, b) {
        (NumericPair::NotNumbers, NumericPair::NotNumbers) => true,
        (NumericPair::Agree, NumericPair::Agree) => true,
        (NumericPair::NonFinite, NumericPair::NonFinite) => true,
        (
            NumericPair::Apart { diff, tolerance },
            NumericPair::Apart { diff: other_diff, tolerance: other_tolerance },
        ) => diff@ == other_diff@ && tolerance@ == other_tolerance@,
        _ => false,
    }
}

/// `numeric` finds one thing of two tokens, however often it is asked.
pub open spec fn finds_one_thing<F: Fn(&str, &str) -> NumericPair>(numeric: F) -> bool {
    forall|expected: Seq<char>, actual: Seq<char>, a: NumericPair, b: NumericPair|
        #[trigger] can_find(numeric, expected, actual, a) && #[trigger] can_find(
            numeric,
            expected,
            actual,
            b,
        ) ==> same_finding(a, b)
}

/// How the bytes are cut into chunks does not matter: two comparisons of the
/// same bytes that both come to a verdict come to the same one. Where no read
/// fails and the bytes can be read, both do.
pub proof fn chunks_do_not_matter<F: Fn(&str, &str) -> NumericPair>(
    format: StreamingFormat,
    expected: Seq<u8>,
    actual: Seq<u8>,
    numeric: F,
    may_fail: bool,
    a: Result<CheckerVerdict, String>,
    b: Result<CheckerVerdict, String>,
)
    requires
        format is TokensFloat ==> finds_one_thing(numeric),
        streaming_outcome(a, format, expected, actual, may_fail, numeric),
        streaming_outcome(b, format, expected, actual, may_fail, numeric),
    ensures
        readable(format, expected, actual) && !may_fail ==> a is Ok && b is Ok,
        a is Ok && b is Ok ==> same_verdict(a->Ok_0, b->Ok_0),
{
    if format is TokensFloat && a is Ok && b is Ok {
        let whole = valid_utf8(expected) && valid_utf8(actual);
        lemma_all_legible(expected);
        lemma_all_legible(actual);
        let e = util::tokens_of(utf8::legible(expected));
        let t = util::tokens_of(utf8::legible(actual));
        let p = choose|founds: Seq<NumericPair>| #[trigger]
            can_find_all(numeric, e, t, founds) && if whole {
                numeric_verdict(a->Ok_0, e, t, founds)
            } else {
                numeric_differ(a->Ok_0, e, t, founds)
            };
        let q = choose|founds: Seq<NumericPair>| #[trigger]
            can_find_all(numeric, e, t, founds) && if whole {
                numeric_verdict(b->Ok_0, e, t, founds)
            } else {
                numeric_differ(b->Ok_0, e, t, founds)
            };
        lemma_one_numeric_verdict(numeric, e, t, p, q, a->Ok_0, b->Ok_0);
    }
}

/// `numeric` has nothing to say against a token beside itself.
pub open spec fn accepts_the_same<F: Fn(&str, &str) -> NumericPair>(numeric: F) -> bool {
    forall|token: Seq<char>, found: NumericPair| #[trigger]
        can_find(numeric, token, token, found) ==> found is NotNumbers || found is Agree
}

/// Sources that hold the same bytes fail to compare where the bytes are not what
/// the format reads, however they are cut into chunks.
pub proof fn what_is_no_text_is_refused<F: Fn(&str, &str) -> NumericPair>(
    format: StreamingFormat,
    bytes: Seq<u8>,
    numeric: F,
    may_fail: bool,
    r: Result<CheckerVerdict, String>,
)
    requires
        !readable(format, bytes, bytes),
        format is TokensFloat ==> accepts_the_same(numeric),
        streaming_outcome(r, format, bytes, bytes, may_fail, numeric),
    ensures
        r is Err,
{
    lemma_no_difference(bytes);
    if format is TokensFloat && r is Ok {
        let t = util::tokens_of(utf8::legible(bytes));
        let founds = choose|founds: Seq<NumericPair>| #[trigger]
            can_find_all(numeric, t, t, founds) && numeric_differ(r->Ok_0, t, t, founds);
        let n = founds.len() - 1;
        assert(can_find(numeric, t[n], t[n], founds[n]));
    }
}

/// Nothing differs from itself.
proof fn lemma_no_difference(bytes: Seq<u8>)
    ensures
        forall|v: CheckerVerdict| !#[trigger]
            lines_differ(
                v,
                util::trimmed_lines(utf8::legible(bytes)),
                util::trimmed_lines(utf8::legible(bytes)),
            ),
        forall|v: CheckerVerdict, mode: TokenMode| !#[trigger]
            tokens_differ(
                v,
                mode,
                util::tokens_of(utf8::legible(bytes)),
                util::tokens_of(utf8::legible(bytes)),
            ),
{
    let lines = util::trimmed_lines(utf8::legible(bytes));
    let tokens = util::tokens_of(utf8::legible(bytes));
    lemma_all_lines_equal(lines, lines);
    lemma_all_tokens_agree(TokenMode::Exact, tokens, tokens);
    lemma_all_tokens_agree(TokenMode::CaseInsensitive, tokens, tokens);
    assert forall|v: CheckerVerdict, mode: TokenMode| !#[trigger]
        tokens_differ(v, mode, tokens, tokens) by {
        assert(mode is Exact || mode is CaseInsensitive);
        assert(all_tokens_agree(mode, tokens, tokens));
    }
}

proof fn lemma_one_numeric_verdict<F: Fn(&str, &str) -> NumericPair>(
    numeric: F,
    e: Seq<Seq<char>>,
    t: Seq<Seq<char>>,
    p: Seq<NumericPair>,
    q: Seq<NumericPair>,
    a: CheckerVerdict,
    b: CheckerVerdict,
)
    requires
        finds_one_thing(numeric),
        can_find_all(numeric, e, t, p),
        can_find_all(numeric, e, t, q),
        numeric_verdict(a, e, t, p),
        numeric_verdict(b, e, t, q),
    ensures
        same_verdict(a, b),
{
    assert forall|i: int| 0 <= i < p.len() && i < q.len() implies numeric_complaint(
        (i + 1) as nat,
        e[i],
        t[i],
        #[trigger] p[i],
    ) == numeric_complaint((i + 1) as nat, e[i], t[i], q[i]) by {
        assert(can_find(numeric, e[i], t[i], p[i]));
        assert(can_find(numeric, e[i], t[i], q[i]));
        assert(same_finding(p[i], q[i]));
    }
    if p.len() < q.len() {
        assert(p.len() > 0 ==> numeric_complaint(p.len(), e[p.len() - 1], t[p.len() - 1], q[p.len()
            - 1]) is None);
    } else if q.len() < p.len() {
        assert(q.len() > 0 ==> numeric_complaint(q.len(), e[q.len() - 1], t[q.len() - 1], p[q.len()
            - 1]) is None);
    } else if p.len() > 0 {
        let n = p.len() - 1;
        assert(numeric_complaint((n + 1) as nat, e[n], t[n], p[n]) == numeric_complaint(
            (n + 1) as nat,
            e[n],
            t[n],
            q[n],
        ));
    }
}

/// Two lists of tokens with the same number of them, of which each two agree.
pub open spec fn all_tokens_agree(
    mode: TokenMode,
    expected: Seq<Seq<char>>,
    actual: Seq<Seq<char>>,
) -> bool {
    &&& expected.len() == actual.len()
    &&& forall|i: int|
        0 <= i < expected.len() ==> same_token(mode, #[trigger] expected[i], actual[i])
}

/// Two lists of tokens with the same number of them, of which `numeric` can
/// find nothing to complain about.
pub open spec fn no_complaint<F: Fn(&str, &str) -> NumericPair>(
    numeric: F,
    expected: Seq<Seq<char>>,
    actual: Seq<Seq<char>>,
) -> bool {
    &&& expected.len() == actual.len()
    &&& exists|founds: Seq<NumericPair>|
        {
            &&& #[trigger] can_find_all(numeric, expected, actual, founds)
            &&& founds.len() == expected.len()
            &&& no_complaint_before(expected, actual, founds, founds.len() as int)
        }
}

/// What is accepted: the same bytes, the same compared lines, tokens that agree,
/// or, of numbers, only tokens without a complaint.
pub proof fn acceptance_is_agreement<F: Fn(&str, &str) -> NumericPair>(
    v: CheckerVerdict,
    format: StreamingFormat,
    expected: Seq<u8>,
    actual: Seq<u8>,
    numeric: F,
)
    requires
        readable(format, expected, actual),
        streaming_verdict(v, format, expected, actual, numeric),
    ensures
        ({
            let e = decode_utf8(expected);
            let a = decode_utf8(actual);
            match format {
                StreamingFormat::Exact => v.verdict is Accepted <==> expected == actual,
                StreamingFormat::Lines => v.verdict is Accepted <==> util::trimmed_lines(e)
                    == util::trimmed_lines(a),
                StreamingFormat::Tokens => v.verdict is Accepted <==> util::tokens_of(e)
                    == util::tokens_of(a),
                StreamingFormat::TokensCaseInsensitive => v.verdict is Accepted
                    <==> all_tokens_agree(
                    TokenMode::CaseInsensitive,
                    util::tokens_of(e),
                    util::tokens_of(a),
                ),
                StreamingFormat::TokensFloat => v.verdict is Accepted ==> no_complaint(
                    numeric,
                    util::tokens_of(e),
                    util::tokens_of(a),
                ),
            }
        }),
{
    let e = decode_utf8(expected);
    let a = decode_utf8(actual);
    match format {
        StreamingFormat::Lines => {
            lemma_all_lines_equal(util::trimmed_lines(e), util::trimmed_lines(a));
        },
        StreamingFormat::Tokens => {
            let x = util::tokens_of(e);
            let y = util::tokens_of(a);
            lemma_all_tokens_agree(TokenMode::Exact, x, y);
            if all_tokens_agree(TokenMode::Exact, x, y) {
                assert forall|i: int| 0 <= i < x.len() implies x[i] == y[i] by {
                    assert(same_token(TokenMode::Exact, x[i], y[i]));
                }
                assert(x =~= y);
            }
        },
        StreamingFormat::TokensCaseInsensitive => {
            lemma_all_tokens_agree(
                TokenMode::CaseInsensitive,
                util::tokens_of(e),
                util::tokens_of(a),
            );
        },
        _ => {},
    }
}

proof fn lemma_all_lines_equal(e: Seq<Seq<char>>, a: Seq<Seq<char>>)
    ensures
        equal_lines(e, a) <= e.len(),
        equal_lines(e, a) <= a.len(),
        e.len() == a.len() ==> (equal_lines(e, a) == e.len() <==> e == a),
    decreases e.len(),
{
    if e.len() > 0 && a.len() > 0 && e[0] == a[0] {
        lemma_all_lines_equal(e.drop_first(), a.drop_first());
        assert(seq![e[0]] + e.drop_first() =~= e);
        assert(seq![a[0]] + a.drop_first() =~= a);
    } else if e.len() == 0 && a.len() == 0 {
        assert(e =~= a);
    }
}

proof fn lemma_all_tokens_agree(mode: TokenMode, e: Seq<Seq<char>>, a: Seq<Seq<char>>)
    ensures
        agreeing_tokens(mode, e, a) <= e.len(),
        agreeing_tokens(mode, e, a) <= a.len(),
        e.len() == a.len() ==> (agreeing_tokens(mode, e, a) == e.len() <==> all_tokens_agree(
            mode,
            e,
            a,
        )),
    decreases e.len(),
{
    if e.len() > 0 && a.len() > 0 && same_token(mode, e[0], a[0]) {
        let x = e.drop_first();
        let y = a.drop_first();
        lemma_all_tokens_agree(mode, x, y);
        if all_tokens_agree(mode, e, a) {
            assert forall|i: int| 0 <= i < x.len() implies same_token(
                mode,
                #[trigger] x[i],
                y[i],
            ) by {
                assert(same_token(mode, e[i + 1], a[i + 1]));
            }
        }
        if all_tokens_agree(mode, x, y) {
            assert forall|i: int| 0 <= i < e.len() implies same_token(
                mode,
                #[trigger] e[i],
                a[i],
            ) by {
                if i > 0 {
                    assert(same_token(mode, x[i - 1], y[i - 1]));
                }
            }
        }
    } else if e.len() > 0 && a.len() > 0 {
        assert(!same_token(mode, e[0], a[0]));
    }
}

} // verus!
