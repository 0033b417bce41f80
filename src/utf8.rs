//! Resumable UTF-8 validation over byte chunks.
use vstd::prelude::*;

verus! {

/// What a validator reports about the bytes it has seen.
#[derive(Clone, Copy, Debug, PartialEq, Eq, Structural)]
pub enum Utf8Status {
    /// Every byte belongs to a complete, well-formed sequence.
    Complete,
    /// Well-formed so far, but the last sequence still lacks continuation bytes.
    Partial,
    /// An ill-formed sequence occurs.
    Invalid,
}

/// Number of bytes of the sequence that starts with `b`; zero where `b` starts none.
pub open spec fn seq_width(b: u8) -> nat {
    if b <= 0x7f {
        1
    } else if 0xc2 <= b && b <= 0xdf {
        2
    } else if 0xe0 <= b && b <= 0xef {
        3
    } else if 0xf0 <= b && b <= 0xf4 {
        4
    } else {
        0
    }
}

/// Whether `b` may follow `lead` as the second byte of a sequence (no overlong
/// forms, no surrogates, nothing above U+10FFFF).
pub open spec fn second_ok(lead: u8, b: u8) -> bool {
    if lead == 0xe0 {
        0xa0 <= b && b <= 0xbf
    } else if lead == 0xed {
        0x80 <= b && b <= 0x9f
    } else if lead == 0xf0 {
        0x90 <= b && b <= 0xbf
    } else if lead == 0xf4 {
        0x80 <= b && b <= 0x8f
    } else {
        0x80 <= b && b <= 0xbf
    }
}

/// Whether byte `j` (1, 2 or 3) of `s` may stand at that place of the sequence led by `s[0]`.
pub open spec fn cont_ok(s: Seq<u8>, j: int) -> bool {
    cont_byte_ok(s[0], s[j], j)
}

/// Whether `b` may stand as byte `j` (1, 2 or 3) of the sequence led by `lead`.
pub open spec fn cont_byte_ok(lead: u8, b: u8, j: int) -> bool {
    if j == 1 {
        second_ok(lead, b)
    } else {
        0x80 <= b && b <= 0xbf
    }
}

/// Whether bytes `1..k` of `s` are the right continuation bytes for its lead byte.
pub open spec fn tail_ok(s: Seq<u8>, k: int) -> bool {
    (k <= 1 || cont_ok(s, 1)) && (k <= 2 || cont_ok(s, 2)) && (k <= 3 || cont_ok(s, 3))
}

/// The status of a byte string read as UTF-8 from its start.
pub open spec fn utf8_status(s: Seq<u8>) -> Utf8Status
    decreases s.len(),
{
    if s.len() == 0 {
        Utf8Status::Complete
    } else {
        let w = seq_width(s[0]);
        if w == 0 {
            Utf8Status::Invalid
        } else if s.len() < w {
            if tail_ok(s, s.len() as int) {
                Utf8Status::Partial
            } else {
                Utf8Status::Invalid
            }
        } else if tail_ok(s, w as int) {
            utf8_status(s.subrange(w as int, s.len() as int))
        } else {
            Utf8Status::Invalid
        }
    }
}

/// A complete prefix does not change how the rest reads.
pub proof fn lemma_complete_prefix(a: Seq<u8>, b: Seq<u8>)
    requires
        utf8_status(a) == Utf8Status::Complete,
    ensures
        utf8_status(a + b) == utf8_status(b),
    decreases a.len(),
{
    if a.len() == 0 {
        assert(a + b =~= b);
    } else {
        let w = seq_width(a[0]) as int;
        let ab = a + b;
        assert(ab[0] == a[0]);
        assert forall|j: int| 0 <= j < w implies ab[j] == a[j] by {}
        let rest = a.subrange(w, a.len() as int);
        lemma_complete_prefix(rest, b);
        assert(ab.subrange(w, ab.len() as int) =~= rest + b);
    }
}

/// Once ill-formed, always ill-formed: no later bytes can mend an invalid prefix.
pub proof fn lemma_invalid_prefix(a: Seq<u8>, b: Seq<u8>)
    requires
        utf8_status(a) == Utf8Status::Invalid,
    ensures
        utf8_status(a + b) == Utf8Status::Invalid,
    decreases a.len(),
{
    let ab = a + b;
    let w = seq_width(a[0]) as int;
    assert(ab[0] == a[0]);
    assert forall|j: int| 0 <= j < a.len() implies ab[j] == a[j] by {}
    if w != 0 && a.len() >= w && tail_ok(a, w) {
        let rest = a.subrange(w, a.len() as int);
        lemma_invalid_prefix(rest, b);
        assert(ab.subrange(w, ab.len() as int) =~= rest + b);
    }
}

/// One well-formed sequence of `w` bytes reads as complete.
proof fn lemma_one_sequence(s: Seq<u8>, w: int)
    requires
        s.len() == w,
        w == seq_width(s[0]),
        w > 0,
        tail_ok(s, w),
    ensures
        utf8_status(s) == Utf8Status::Complete,
{
    reveal_with_fuel(utf8_status, 2);
    assert(s.subrange(w, w) =~= Seq::<u8>::empty());
}

/// Whether `b` may stand as byte `j` of the sequence led by `lead`.
fn cont_ok_exec(lead: u8, b: u8, j: usize) -> (r: bool)
    ensures
        r == cont_byte_ok(lead, b, j as int),
{
    if j == 1 {
        if lead == 0xe0 {
            0xa0 <= b && b <= 0xbf
        } else if lead == 0xed {
            0x80 <= b && b <= 0x9f
        } else if lead == 0xf0 {
            0x90 <= b && b <= 0xbf
        } else if lead == 0xf4 {
            0x80 <= b && b <= 0x8f
        } else {
            0x80 <= b && b <= 0xbf
        }
    } else {
        0x80 <= b && b <= 0xbf
    }
}

/// Reads `s` as UTF-8. Returns its status and the length of the longest prefix made
/// of complete sequences that the scan reached: the whole input unless it is
/// `Partial`, where what follows that prefix is the unfinished last sequence.
pub fn scan_utf8(s: &[u8]) -> (r: (Utf8Status, usize))
    ensures
        r.0 == utf8_status(s@),
        r.1 <= s@.len(),
        utf8_status(s@.subrange(0, r.1 as int)) == Utf8Status::Complete,
        r.0 == Utf8Status::Partial ==> utf8_status(s@.subrange(r.1 as int, s@.len() as int))
            == Utf8Status::Partial && s@.len() - r.1 < 4,
        r.0 == Utf8Status::Complete ==> r.1 == s@.len(),
{
    let n = s.len();
    let mut i: usize = 0;
    proof {
        assert(s@.subrange(0, 0) =~= Seq::<u8>::empty());
        assert(s@.subrange(0, n as int) =~= s@);
    }
    while i < n
        invariant
            n == s@.len(),
            i <= n,
            utf8_status(s@) == utf8_status(s@.subrange(i as int, n as int)),
            utf8_status(s@.subrange(0, i as int)) == Utf8Status::Complete,
        decreases n - i,
    {
        let ghost t = s@.subrange(i as int, n as int);
        let lead = s[i];
        assert(t[0] == lead);
        let w: usize = if lead <= 0x7f {
            1
        } else if 0xc2 <= lead && lead <= 0xdf {
            2
        } else if 0xe0 <= lead && lead <= 0xef {
            3
        } else if 0xf0 <= lead && lead <= 0xf4 {
            4
        } else {
            0
        };
        if w == 0 {
            return (Utf8Status::Invalid, i);
        }
        let avail: usize = if n - i < w { n - i } else { w };
        let mut j: usize = 1;
        while j < avail
            invariant
                1 <= j <= avail,
                avail <= w <= 4,
                avail <= n - i,
                i < n,
                n == s@.len(),
                t == s@.subrange(i as int, n as int),
                lead == t[0],
                tail_ok(t, j as int),
                w as nat == seq_width(lead),
                t.len() == n - i,
                utf8_status(s@) == utf8_status(t),
                utf8_status(s@.subrange(0, i as int)) == Utf8Status::Complete,
                avail == (if n - i < w { (n - i) as usize } else { w }),
            decreases avail - j,
        {
            let b = s[i + j];
            assert(t[j as int] == b);
            let ok = cont_ok_exec(lead, b, j);
            if !ok {
                proof {
                    assert(!cont_ok(t, j as int));
                    assert(j == 1 || j == 2 || j == 3);
                    assert(!tail_ok(t, avail as int));
                    assert(!tail_ok(t, w as int));
                    assert(utf8_status(t) == Utf8Status::Invalid);
                }
                return (Utf8Status::Invalid, i);
            }
            j = j + 1;
        }
        if avail < w {
            proof {
                assert(t =~= s@.subrange(i as int, n as int));
            }
            return (Utf8Status::Partial, i);
        }
        proof {
            let piece = s@.subrange(i as int, (i + w) as int);
            assert forall|k: int| 0 <= k < w implies piece[k] == t[k] by {}
            lemma_one_sequence(piece, w as int);
            lemma_complete_prefix(s@.subrange(0, i as int), piece);
            assert(s@.subrange(0, i as int) + piece =~= s@.subrange(0, (i + w) as int));
            assert(t.subrange(w as int, t.len() as int) =~= s@.subrange((i + w) as int, n as int));
        }
        i = i + w;
    }
    proof {
        assert(s@.subrange(i as int, n as int) =~= Seq::<u8>::empty());
    }
    (Utf8Status::Complete, n)
}

/// A validator that takes a message in chunks and keeps only the unfinished last
/// sequence (at most three bytes) between them.
pub struct Utf8Validator {
    /// The bytes of an unfinished sequence at the end of what was fed.
    tail: Vec<u8>,
    /// Whether an ill-formed sequence was seen.
    failed: bool,
    /// What was fed before `tail`: complete sequences only.
    done: Ghost<Seq<u8>>,
    /// All bytes fed.
    seen: Ghost<Seq<u8>>,
}

impl Utf8Validator {
    /// All bytes fed since the validator was made or reset.
    pub closed spec fn fed(&self) -> Seq<u8> {
        self.seen@
    }

    /// The validator's record agrees with the bytes fed.
    pub closed spec fn wf(&self) -> bool {
        &&& self.failed ==> utf8_status(self.seen@) == Utf8Status::Invalid
        &&& !self.failed ==> {
            &&& self.seen@ == self.done@ + self.tail@
            &&& utf8_status(self.done@) == Utf8Status::Complete
            &&& self.tail@.len() == 0 || utf8_status(self.tail@) == Utf8Status::Partial
        }
    }

    /// A validator that has seen nothing.
    pub fn new() -> (r: Utf8Validator)
        ensures
            r.wf(),
            r.fed() == Seq::<u8>::empty(),
    {
        let r = Utf8Validator {
            tail: Vec::new(),
            failed: false,
            done: Ghost(Seq::empty()),
            seen: Ghost(Seq::empty()),
        };
        assert(r.done@ + r.tail@ =~= Seq::<u8>::empty());
        r
    }

    /// Forgets what was fed, to start a new message.
    pub fn reset(&mut self)
        ensures
            final(self).wf(),
            final(self).fed() == Seq::<u8>::empty(),
    {
        self.tail = Vec::new();
        self.failed = false;
        self.done = Ghost(Seq::empty());
        self.seen = Ghost(Seq::empty());
        assert(self.done@ + self.tail@ =~= Seq::<u8>::empty());
    }

    /// The status of all bytes fed so far.
    pub fn status(&self) -> (r: Utf8Status)
        requires
            self.wf(),
        ensures
            r == utf8_status(self.fed()),
    {
        if self.failed {
            Utf8Status::Invalid
        } else {
            proof {
                lemma_complete_prefix(self.done@, self.tail@);
            }
            if self.tail.len() == 0 {
                Utf8Status::Complete
            } else {
                Utf8Status::Partial
            }
        }
    }

    /// Feeds the next chunk and reports the status of all bytes fed so far.
    pub fn feed(&mut self, chunk: &[u8]) -> (r: Utf8Status)
        requires
            old(self).wf(),
        ensures
            final(self).wf(),
            final(self).fed() == old(self).fed() + chunk@,
            r == utf8_status(final(self).fed()),
    {
        let ghost old_fed = self.seen@;
        self.seen = Ghost(old_fed + chunk@);
        if self.failed {
            proof {
                lemma_invalid_prefix(old_fed, chunk@);
            }
            return Utf8Status::Invalid;
        }
        proof {
            lemma_complete_prefix(self.done@, self.tail@ + chunk@);
            assert(old_fed + chunk@ =~= self.done@ + (self.tail@ + chunk@));
        }
        let mut joined: Vec<u8> = Vec::new();
        let mut i: usize = 0;
        while i < self.tail.len()
            invariant
                i <= self.tail@.len(),
                joined@ == self.tail@.subrange(0, i as int),
            decreases self.tail@.len() - i,
        {
            joined.push(self.tail[i]);
            i = i + 1;
            assert(joined@ =~= self.tail@.subrange(0, i as int));
        }
        let mut j: usize = 0;
        let ghost t0 = self.tail@;
        assert(joined@ =~= t0);
        while j < chunk.len()
            invariant
                j <= chunk@.len(),
                joined@ == t0 + chunk@.subrange(0, j as int),
            decreases chunk@.len() - j,
        {
            joined.push(chunk[j]);
            j = j + 1;
            assert(joined@ =~= t0 + chunk@.subrange(0, j as int));
        }
        assert(joined@ =~= t0 + chunk@);
        let (status, split) = scan_utf8(joined.as_slice());
        if status == Utf8Status::Invalid {
            self.failed = true;
            return Utf8Status::Invalid;
        }
        let rest = take_tail(&joined, split);
        proof {
            let head = joined@.subrange(0, split as int);
            lemma_complete_prefix(self.done@, head);
            assert(joined@ =~= head + rest@);
            assert(self.done@ + head + rest@ =~= old_fed + chunk@);
            if status == Utf8Status::Complete {
                assert(rest@ =~= Seq::<u8>::empty());
            }
        }
        self.done = Ghost(self.done@ + joined@.subrange(0, split as int));
        self.tail = rest;
        status
    }
}

/// The bytes of `v` from `from` on.
fn take_tail(v: &Vec<u8>, from: usize) -> (r: Vec<u8>)
    requires
        from <= v@.len(),
    ensures
        r@ == v@.subrange(from as int, v@.len() as int),
{
    let mut out: Vec<u8> = Vec::new();
    let mut i: usize = from;
    while i < v.len()
        invariant
            from <= i <= v@.len(),
            out@ == v@.subrange(from as int, i as int),
        decreases v@.len() - i,
    {
        out.push(v[i]);
        i = i + 1;
        assert(out@ =~= v@.subrange(from as int, i as int));
    }
    out
}

} // verus!
