use vstd::prelude::*;

verus! {

use crate::util::append_bytes;
use crate::util::views_of;

/// The two record formats the Sequence Source reads.
#[derive(Clone, Copy, PartialEq, Eq, Structural, Debug)]
pub enum SequenceFormat {
    Fasta,
    Fastq,
}

/// Why a file name could not be assigned a format.
#[derive(Clone, Copy, PartialEq, Eq, Structural, Debug)]
pub enum FormatError {
    /// The name ends neither in `a` (FASTA) nor in `q` (FASTQ).
    UnsupportedSuffix,
}

/// The format a file name selects: a trailing `a` (byte 97) means FASTA, a
/// trailing `q` (byte 113) means FASTQ, anything else is unsupported.
pub open spec fn spec_format_of(name: Seq<u8>) -> Result<SequenceFormat, FormatError> {
    if name.len() > 0 && name.last() == 97u8 {
        Ok(SequenceFormat::Fasta)
    } else if name.len() > 0 && name.last() == 113u8 {
        Ok(SequenceFormat::Fastq)
    } else {
        Err(FormatError::UnsupportedSuffix)
    }
}

/// Selects the record format from the file name's trailing byte.
pub fn detect_format(name: &Vec<u8>) -> (r: Result<SequenceFormat, FormatError>)
    ensures
        r == spec_format_of(name@),
{
    if name.len() == 0 {
        return Err(FormatError::UnsupportedSuffix);
    }
    let last = name[name.len() - 1];
    if last == 97 {
        Ok(SequenceFormat::Fasta)
    } else if last == 113 {
        Ok(SequenceFormat::Fastq)
    } else {
        Err(FormatError::UnsupportedSuffix)
    }
}

/// A FASTA header line: it starts with the marker `>` (byte 62).
pub open spec fn is_fasta_marker(line: Seq<u8>) -> bool {
    line.len() > 0 && line[0] == 62u8
}

/// What FASTA reading yields from `lines` when the record collected so far is
/// `cur` (only meaningful once a marker was seen, `started`): a marker line
/// closes and emits the collected record if it is nonempty and opens a new
/// one; any other line extends the open record; lines before the first marker
/// are ignored; the last record is emitted at the end of input.
pub open spec fn fasta_fold(lines: Seq<Seq<u8>>, started: bool, cur: Seq<u8>) -> Seq<Seq<u8>>
    decreases lines.len(),
{
    if lines.len() == 0 {
        if started && cur.len() > 0 {
            seq![cur]
        } else {
            Seq::empty()
        }
    } else {
        let line = lines[0];
        let rest = lines.drop_first();
        if is_fasta_marker(line) {
            if started && cur.len() > 0 {
                seq![cur] + fasta_fold(rest, true, Seq::empty())
            } else {
                fasta_fold(rest, true, Seq::empty())
            }
        } else if started {
            fasta_fold(rest, true, cur + line)
        } else {
            fasta_fold(rest, false, cur)
        }
    }
}

/// The ordered sequences a FASTA file's lines hold.
pub open spec fn fasta_sequences(lines: Seq<Seq<u8>>) -> Seq<Seq<u8>> {
    fasta_fold(lines, false, Seq::empty())
}

/// A FASTQ identifier line starts with `@` (byte 64).
pub open spec fn is_fastq_header(line: Seq<u8>) -> bool {
    line.len() > 0 && line[0] == 64u8
}

/// A FASTQ separator line starts with `+` (byte 43).
pub open spec fn is_fastq_separator(line: Seq<u8>) -> bool {
    line.len() > 0 && line[0] == 43u8
}

/// What FASTQ reading yields from `lines` while `reading` sequence lines
/// collected in `cur`: the lines strictly between an identifier line and the
/// following separator line are concatenated into one sequence per record;
/// lines after the separator (quality scores) are ignored until the next
/// identifier; an empty record, or one not closed by a separator, is dropped.
pub open spec fn fastq_fold(lines: Seq<Seq<u8>>, reading: bool, cur: Seq<u8>) -> Seq<Seq<u8>>
    decreases lines.len(),
{
    if lines.len() == 0 {
        Seq::empty()
    } else {
        let line = lines[0];
        let rest = lines.drop_first();
        if is_fastq_header(line) {
            fastq_fold(rest, true, Seq::empty())
        } else if is_fastq_separator(line) {
            if reading && cur.len() > 0 {
                seq![cur] + fastq_fold(rest, false, Seq::empty())
            } else {
                fastq_fold(rest, false, Seq::empty())
            }
        } else if reading {
            fastq_fold(rest, true, cur + line)
        } else {
            fastq_fold(rest, false, cur)
        }
    }
}

/// The ordered sequences a FASTQ file's lines hold.
pub open spec fn fastq_sequences(lines: Seq<Seq<u8>>) -> Seq<Seq<u8>> {
    fastq_fold(lines, false, Seq::empty())
}

/// The ordered sequences `lines` hold under `format`.
pub open spec fn spec_sequences(format: SequenceFormat, lines: Seq<Seq<u8>>) -> Seq<Seq<u8>> {
    match format {
        SequenceFormat::Fasta => fasta_sequences(lines),
        SequenceFormat::Fastq => fastq_sequences(lines),
    }
}

/// The Sequence Source in FASTA mode: one sequence per header-marked record,
/// its non-marker lines concatenated.  `lines` are the file's lines with
/// their terminators stripped.
pub fn sequences_from_fasta(lines: &Vec<Vec<u8>>) -> (r: Vec<Vec<u8>>)
    ensures
        views_of(r@) == fasta_sequences(views_of(lines@)),
{
    let ghost lv = views_of(lines@);
    let mut out: Vec<Vec<u8>> = Vec::new();
    let mut cur: Vec<u8> = Vec::new();
    let mut started: bool = false;
    let mut i: usize = 0;
    proof {
        assert(lv.skip(0) =~= lv);
        assert(views_of(out@) =~= Seq::<Seq<u8>>::empty());
    }
    while i < lines.len()
        invariant
            lv == views_of(lines@),
            i <= lines@.len(),
            views_of(out@) + fasta_fold(lv.skip(i as int), started, cur@) == fasta_sequences(lv),
        decreases lines@.len() - i,
    {
        let ghost tail = lv.skip(i as int);
        proof {
            assert(tail[0] == lines@[i as int]@);
            assert(tail.drop_first() =~= lv.skip(i + 1));
        }
        let line = &lines[i];
        let marker = line.len() > 0 && line[0] == 62;
        if marker {
            if started && cur.len() > 0 {
                let ghost prev_out = out@;
                let ghost cur_v = cur@;
                out.push(cur);
                cur = Vec::new();
                proof {
                    assert(views_of(out@) =~= views_of(prev_out).push(cur_v));
                }
            } else {
                cur = Vec::new();
            }
            started = true;
        } else if started {
            append_bytes(&mut cur, line);
        }
        proof {
            assert(views_of(out@) + fasta_fold(lv.skip(i + 1), started, cur@) =~= fasta_sequences(
                lv,
            ));
        }
        i += 1;
    }
    proof {
        assert(lv.skip(lines@.len() as int) =~= Seq::<Seq<u8>>::empty());
    }
    if started && cur.len() > 0 {
        let ghost prev_out = out@;
        let ghost cur_v = cur@;
        out.push(cur);
        proof {
            assert(views_of(out@) =~= views_of(prev_out).push(cur_v));
            assert(views_of(out@) =~= fasta_sequences(lv));
        }
    } else {
        proof {
            assert(views_of(out@) =~= fasta_sequences(lv));
        }
    }
    out
}

/// The Sequence Source in FASTQ mode: one sequence per record, the lines
/// between its identifier and its separator concatenated; quality lines are
/// not sequence content.  `lines` are the file's lines with their terminators
/// stripped.
pub fn sequences_from_fastq(lines: &Vec<Vec<u8>>) -> (r: Vec<Vec<u8>>)
    ensures
        views_of(r@) == fastq_sequences(views_of(lines@)),
{
    let ghost lv = views_of(lines@);
    let mut out: Vec<Vec<u8>> = Vec::new();
    let mut cur: Vec<u8> = Vec::new();
    let mut reading: bool = false;
    let mut i: usize = 0;
    proof {
        assert(lv.skip(0) =~= lv);
        assert(views_of(out@) =~= Seq::<Seq<u8>>::empty());
    }
    while i < lines.len()
        invariant
            lv == views_of(lines@),
            i <= lines@.len(),
            views_of(out@) + fastq_fold(lv.skip(i as int), reading, cur@) == fastq_sequences(lv),
        decreases lines@.len() - i,
    {
        let ghost tail = lv.skip(i as int);
        proof {
            assert(tail[0] == lines@[i as int]@);
            assert(tail.drop_first() =~= lv.skip(i + 1));
        }
        let line = &lines[i];
        let header = line.len() > 0 && line[0] == 64;
        let separator = line.len() > 0 && line[0] == 43;
        if header {
            cur = Vec::new();
            reading = true;
        } else if separator {
            if reading && cur.len() > 0 {
                let ghost prev_out = out@;
                let ghost cur_v = cur@;
                out.push(cur);
                cur = Vec::new();
                proof {
                    assert(views_of(out@) =~= views_of(prev_out).push(cur_v));
                }
            } else {
                cur = Vec::new();
            }
            reading = false;
        } else if reading {
            append_bytes(&mut cur, line);
        }
        proof {
            assert(views_of(out@) + fastq_fold(lv.skip(i + 1), reading, cur@) =~= fastq_sequences(
                lv,
            ));
        }
        i += 1;
    }
    proof {
        assert(lv.skip(lines@.len() as int) =~= Seq::<Seq<u8>>::empty());
        assert(views_of(out@) =~= fastq_sequences(lv));
    }
    out
}

/// The Sequence Source: the ordered sequences of a file's lines under the
/// given record format.
pub fn sequences_from_lines(format: SequenceFormat, lines: &Vec<Vec<u8>>) -> (r: Vec<Vec<u8>>)
    ensures
        views_of(r@) == spec_sequences(format, views_of(lines@)),
{
    match format {
        SequenceFormat::Fasta => sequences_from_fasta(lines),
        SequenceFormat::Fastq => sequences_from_fastq(lines),
    }
}

} // verus!
