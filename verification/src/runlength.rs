//! The PDF `RunLengthDecode` filter.

use vstd::prelude::*;

verus! {

/// Why a run-length stream could not be decoded.
#[derive(Debug, Clone, Copy, PartialEq, Eq)]
pub enum RunLengthError {
    /// A literal run announces more bytes than the stream holds.
    ShortLiteralRun,
    /// A repeat run has no byte to repeat.
    ShortRepeatedRun,
}

impl RunLengthError {
    pub open spec fn spec_message(self) -> Seq<char> {
        match self {
            RunLengthError::ShortLiteralRun => "RunLengthDecode: short literal run"@,
            RunLengthError::ShortRepeatedRun => "RunLengthDecode: short repeated run"@,
        }
    }
}

/// Decoded contents of a run-length stream.  A length byte `n` in
/// `0..=127` copies the next `n + 1` bytes literally, `n` in `129..=255`
/// repeats the next byte `257 - n` times, and `128` ends the data.
pub open spec fn spec_runlength(data: Seq<u8>) -> Result<Seq<u8>, RunLengthError>
    decreases data.len(),
{
    if data.len() == 0 {
        Ok(Seq::empty())
    } else {
        let n = data[0];
        if n < 128 {
            let count = n + 1;
            if 1 + count > data.len() {
                Err(RunLengthError::ShortLiteralRun)
            } else {
                match spec_runlength(data.subrange(1 + count, data.len() as int)) {
                    Ok(rest) => Ok(data.subrange(1, 1 + count) + rest),
                    Err(e) => Err(e),
                }
            }
        } else if n == 128 {
            Ok(Seq::empty())
        } else {
            let count = 257 - n;
            if data.len() < 2 {
                Err(RunLengthError::ShortRepeatedRun)
            } else {
                match spec_runlength(data.subrange(2, data.len() as int)) {
                    Ok(rest) => Ok(Seq::new(count as nat, |i: int| data[1]) + rest),
                    Err(e) => Err(e),
                }
            }
        }
    }
}

/// `prefix` followed by the decoding `r`, with errors passed through.
pub open spec fn prepend_ok(prefix: Seq<u8>, r: Result<Seq<u8>, RunLengthError>) -> Result<
    Seq<u8>,
    RunLengthError,
> {
    match r {
        Ok(rest) => Ok(prefix + rest),
        Err(e) => Err(e),
    }
}

/// The end-of-data byte 128 ends decoding: after a stream that decodes,
/// an end-of-data byte followed by anything decodes to the same bytes.
pub proof fn lemma_runlength_end_of_data(a: Seq<u8>, rest: Seq<u8>)
    requires
        spec_runlength(a) is Ok,
    ensures
        spec_runlength(a + seq![128u8] + rest) == spec_runlength(a),
    decreases a.len(),
{
    let d = a + seq![128u8] + rest;
    if a.len() == 0 {
        assert(d[0] == 128u8);
    } else {
        let n = a[0];
        assert(d[0] == n);
        if n < 128 {
            let count = n + 1;
            let a2 = a.subrange(1 + count, a.len() as int);
            assert(d.subrange(1 + count, d.len() as int) =~= a2 + seq![128u8] + rest);
            assert(d.subrange(1, 1 + count) =~= a.subrange(1, 1 + count));
            lemma_runlength_end_of_data(a2, rest);
        } else if n > 128 {
            let a2 = a.subrange(2, a.len() as int);
            assert(d[1] == a[1]);
            assert(d.subrange(2, d.len() as int) =~= a2 + seq![128u8] + rest);
            lemma_runlength_end_of_data(a2, rest);
        }
    }
}

/// Whether `a` is a sequence of complete runs (literal or repeat) that
/// ends exactly at its end, with no end-of-data byte.
pub open spec fn whole_runs(a: Seq<u8>) -> bool
    decreases a.len(),
{
    if a.len() == 0 {
        true
    } else if a[0] < 128 {
        a[0] + 2 <= a.len() && whole_runs(a.subrange(a[0] + 2, a.len() as int))
    } else if a[0] == 128 {
        false
    } else {
        a.len() >= 2 && whole_runs(a.subrange(2, a.len() as int))
    }
}

/// Run-length streams concatenate: a stream of whole runs followed by
/// any stream decodes to the first one's bytes followed by the second
/// one's decoding (or the second one's error).
pub proof fn lemma_runlength_concat(a: Seq<u8>, b: Seq<u8>)
    requires
        whole_runs(a),
    ensures
        spec_runlength(a) is Ok,
        spec_runlength(a + b) == prepend_ok(spec_runlength(a)->Ok_0, spec_runlength(b)),
    decreases a.len(),
{
    let d = a + b;
    if a.len() == 0 {
        assert(d =~= b);
        match spec_runlength(b) {
            Ok(y) => assert(Seq::<u8>::empty() + y =~= y),
            Err(_) => {},
        }
    } else {
        let n = a[0];
        assert(d[0] == n);
        if n < 128 {
            let count = n + 1;
            let a2 = a.subrange(1 + count, a.len() as int);
            lemma_runlength_concat(a2, b);
            assert(d.subrange(1 + count, d.len() as int) =~= a2 + b);
            assert(d.subrange(1, 1 + count) =~= a.subrange(1, 1 + count));
            let x2 = spec_runlength(a2)->Ok_0;
            match spec_runlength(b) {
                Ok(y) => assert(a.subrange(1, 1 + count) + (x2 + y) =~= (a.subrange(1, 1 + count) + x2) + y),
                Err(_) => {},
            }
        } else {
            let a2 = a.subrange(2, a.len() as int);
            lemma_runlength_concat(a2, b);
            assert(d[1] == a[1]);
            assert(d.subrange(2, d.len() as int) =~= a2 + b);
            let x2 = spec_runlength(a2)->Ok_0;
            let run = Seq::new((257 - n) as nat, |i: int| a[1]);
            assert(run =~= Seq::new((257 - n) as nat, |i: int| d[1]));
            match spec_runlength(b) {
                Ok(y) => assert(run + (x2 + y) =~= (run + x2) + y),
                Err(_) => {},
            }
        }
    }
}

/// Decodes a `RunLengthDecode` stream.
pub fn decode_runlength_bytes(data: &[u8]) -> (r: Result<Vec<u8>, RunLengthError>)
    ensures
        match spec_runlength(data@) {
            Ok(d) => r matches Ok(v) && v@ == d,
            Err(e) => r == Err::<Vec<u8>, RunLengthError>(e),
        },
{
    let mut out: Vec<u8> = Vec::with_capacity(data.len());
    let mut i: usize = 0;
    proof {
        assert(data@.subrange(0, data.len() as int) =~= data@);
        match spec_runlength(data@) {
            Ok(x) => assert(out@ + x =~= x),
            Err(e) => {},
        }
    }
    while i < data.len()
        invariant
            i <= data.len(),
            spec_runlength(data@) == prepend_ok(
                out@,
                spec_runlength(data@.subrange(i as int, data.len() as int)),
            ),
        decreases data.len() - i,
    {
        let ghost rest = data@.subrange(i as int, data.len() as int);
        let n = data[i];
        i += 1;
        if n <= 127 {
            let count = n as usize + 1;
            if count > data.len() - i {
                return Err(RunLengthError::ShortLiteralRun);
            }
            let ghost before = out@;
            let mut j: usize = 0;
            while j < count
                invariant
                    i + count <= data.len(),
                    j <= count,
                    out@ == before + data@.subrange(i as int, (i + j) as int),
                decreases count - j,
            {
                out.push(data[i + j]);
                j += 1;
                assert(out@ =~= before + data@.subrange(i as int, (i + j) as int));
            }
            i += count;
            proof {
                assert(rest.subrange(1, 1 + count as int) =~= data@.subrange(
                    (i - count) as int,
                    i as int,
                ));
                assert(rest.subrange(1 + count as int, rest.len() as int) =~= data@.subrange(
                    i as int,
                    data.len() as int,
                ));
                assert(out@ =~= before + rest.subrange(1, 1 + count as int));
                match spec_runlength(data@.subrange(i as int, data.len() as int)) {
                    Ok(x) => {
                        assert(before + (rest.subrange(1, 1 + count as int) + x) =~= out@ + x);
                    },
                    Err(e) => {},
                }
            }
        } else if n == 128 {
            proof {
                assert(out@ + Seq::<u8>::empty() =~= out@);
            }
            return Ok(out);
        } else {
            let count = 257 - n as usize;
            if i >= data.len() {
                return Err(RunLengthError::ShortRepeatedRun);
            }
            let b = data[i];
            let ghost before = out@;
            let mut j: usize = 0;
            while j < count
                invariant
                    j <= count,
                    out@ == before + Seq::new(j as nat, |k: int| b),
                decreases count - j,
            {
                out.push(b);
                j += 1;
                assert(out@ =~= before + Seq::new(j as nat, |k: int| b));
            }
            i += 1;
            proof {
                assert(rest[1] == b);
                assert(rest.subrange(2, rest.len() as int) =~= data@.subrange(
                    i as int,
                    data.len() as int,
                ));
                match spec_runlength(data@.subrange(i as int, data.len() as int)) {
                    Ok(x) => {
                        assert(before + (Seq::new(count as nat, |k: int| rest[1]) + x) =~= out@
                            + x);
                    },
                    Err(e) => {},
                }
            }
        }
    }
    proof {
        assert(data@.subrange(i as int, data.len() as int) =~= Seq::<u8>::empty());
        assert(out@ + Seq::<u8>::empty() =~= out@);
    }
    Ok(out)
}

/// Decodes a `RunLengthDecode` stream: a length byte `n` in `0..=127`
/// copies the next `n + 1` bytes, `n` in `129..=255` repeats the next
/// byte `257 - n` times, `128` ends the data.
pub fn decode_runlength(data: &[u8]) -> (r: Result<Vec<u8>, String>)
    ensures
        match spec_runlength(data@) {
            Ok(d) => r matches Ok(v) && v@ == d,
            Err(e) => r matches Err(m) && m@ == e.spec_message(),
        },
{
    match decode_runlength_bytes(data) {
        Ok(v) => Ok(v),
        Err(RunLengthError::ShortLiteralRun) => Err(String::from_str("RunLengthDecode: short literal run")),
        Err(RunLengthError::ShortRepeatedRun) => Err(String::from_str("RunLengthDecode: short repeated run")),
    }
}

} // verus!
