//! Records of the capture tool's comma-separated output.
//!
//! The first line names the columns; each later line is one presented frame.
//! Columns are found by name, so their order may vary between tool versions.

use crate::decimal::{field_ns, parse_field_ns};
use crate::text::{chars_of, pieces, split_on, split_range, trim, trim_range};
use vstd::prelude::*;

verus! {

/// Frame times at or above this (one second, in nanoseconds) are rejected.
pub const MAX_FRAME_NS: u64 = 1_000_000_000;

/// Fewer fields than this and a line is no record.
pub const MIN_FIELDS: usize = 5;

/// One parsed frame: the application's name and three durations in nanoseconds.
pub struct FrameRecord {
    pub process_name: String,
    pub frametime_ns: u64,
    pub cpu_busy_ns: u64,
    pub gpu_busy_ns: u64,
}

/// The column names of a header line: the trimmed line cut at commas, each
/// name trimmed.
pub open spec fn header_names(line: Seq<char>) -> Seq<Seq<char>> {
    split_on(trim(line), ',').map_values(|f: Seq<char>| trim(f))
}

pub open spec fn names_view(header: Seq<String>) -> Seq<Seq<char>> {
    header.map_values(|h: String| h@)
}

/// Whether column `i` is the first one named `a` or `b`.
pub open spec fn is_first_column(names: Seq<Seq<char>>, a: Seq<char>, b: Seq<char>, i: int) -> bool {
    &&& 0 <= i < names.len()
    &&& (names[i] == a || names[i] == b)
    &&& forall|j: int| 0 <= j < i ==> names[j] != a && names[j] != b
}

/// Index of the first column named `a` or `b`.
pub open spec fn column_of(names: Seq<Seq<char>>, a: Seq<char>, b: Seq<char>) -> Option<int> {
    if exists|i: int| is_first_column(names, a, b, i) {
        Some(choose|i: int| is_first_column(names, a, b, i))
    } else {
        None
    }
}

/// A busy time read from field `i`: zero where the field is missing, not a
/// number, or negative.
pub open spec fn busy_ns(fields: Seq<Seq<char>>, i: int) -> u64 {
    if 0 <= i < fields.len() {
        match field_ns(fields[i]) {
            Some((false, v, _)) => v,
            _ => 0,
        }
    } else {
        0
    }
}

/// A positive frame time shorter than one nanosecond is kept as one.
pub open spec fn at_least_one_ns(v: u64) -> u64 {
    if v == 0 {
        1
    } else {
        v
    }
}

/// The record that a data line holds under the given column names:
/// application name, frame time, CPU busy and GPU busy time. The frame time
/// must lie strictly between 0 and 1000 ms as written: its exact value is
/// non-zero and not negative, and truncated to whole nanoseconds it is below
/// one second (which holds exactly when the written value is).
pub open spec fn parse_record(names: Seq<Seq<char>>, line: Seq<char>) -> Option<
    (Seq<char>, u64, u64, u64),
> {
    let fields = split_on(line, ',');
    let app = column_of(names, "Application"@, "Application"@);
    let ft = column_of(names, "FrameTime"@, "MsBetweenPresents"@);
    let cpu = match column_of(names, "CPUBusy"@, "CPUBusy"@) {
        Some(i) => i,
        None => 0,
    };
    let gpu = match column_of(names, "GPUBusy"@, "GPUTime"@) {
        Some(i) => i,
        None => 0,
    };
    if fields.len() < MIN_FIELDS {
        None
    } else {
        match (app, ft) {
            (Some(a), Some(t)) => if a < fields.len() && t < fields.len() {
                match field_ns(fields[t]) {
                    Some((false, v, true)) => if v < MAX_FRAME_NS {
                        Some((fields[a], at_least_one_ns(v), busy_ns(fields, cpu), busy_ns(fields, gpu)))
                    } else {
                        None
                    },
                    _ => None,
                }
            } else {
                None
            },
            _ => None,
        }
    }
}

/// The column names of a header line.
pub fn parse_header(line: &str) -> (r: Vec<String>)
    ensures
        names_view(r@) == header_names(line@),
{
    let cs = chars_of(line);
    let (lo, hi) = trim_range(&cs, 0, cs.len());
    assert(cs@.subrange(0, cs@.len() as int) =~= cs@);
    let bounds = split_range(&cs, lo, hi, ',');
    let mut out: Vec<String> = Vec::new();
    let mut i: usize = 0;
    while i < bounds.len()
        invariant
            0 <= i <= bounds.len(),
            cs@ == line@,
            lo <= hi <= cs.len(),
            pieces(cs@, bounds@) == split_on(cs@.subrange(lo as int, hi as int), ','),
            forall|k: int| 0 <= k < bounds.len() ==> lo <= #[trigger] bounds@[k].0 <= bounds@[k].1 <= hi,
            names_view(out@) == split_on(cs@.subrange(lo as int, hi as int), ',').take(
                i as int,
            ).map_values(|f: Seq<char>| trim(f)),
        decreases bounds.len() - i,
    {
        let (a, b) = trim_range(&cs, bounds[i].0, bounds[i].1);
        let name = String::from_str(line.substring_char(a, b));
        proof {
            let all = split_on(cs@.subrange(lo as int, hi as int), ',');
            assert(all[i as int] == pieces(cs@, bounds@)[i as int]);
            assert(names_view(out@.push(name)) =~= names_view(out@).push(name@));
            assert(all.take(i + 1).map_values(|f: Seq<char>| trim(f)) =~= all.take(
                i as int,
            ).map_values(|f: Seq<char>| trim(f)).push(trim(all[i as int])));
        }
        out.push(name);
        i = i + 1;
    }
    proof {
        let all = split_on(cs@.subrange(lo as int, hi as int), ',');
        assert(pieces(cs@, bounds@).len() == bounds.len());
        assert(all.take(i as int) =~= all);
    }
    out
}

/// Index of the first column named `a` or `b`.
pub fn find_column(header: &Vec<String>, a: &String, b: &String) -> (r: Option<usize>)
    ensures
        r matches Some(i) ==> column_of(names_view(header@), a@, b@) == Some(i as int),
        r is None ==> column_of(names_view(header@), a@, b@) is None,
{
    let ghost names = names_view(header@);
    let mut i: usize = 0;
    while i < header.len()
        invariant
            0 <= i <= header.len(),
            names == names_view(header@),
            forall|j: int| 0 <= j < i ==> names[j] != a@ && names[j] != b@,
        decreases header.len() - i,
    {
        if header[i] == *a || header[i] == *b {
            proof {
                assert(is_first_column(names, a@, b@, i as int));
                let c = choose|c: int| is_first_column(names, a@, b@, c);
                assert(c == i);
            }
            return Some(i);
        }
        i = i + 1;
    }
    assert(!exists|c: int| is_first_column(names, a@, b@, c));
    None
}

/// A busy time read from field `i` of a line.
fn busy_field(cs: &Vec<char>, bounds: &Vec<(usize, usize)>, i: usize) -> (r: u64)
    requires
        forall|k: int| 0 <= k < bounds.len() ==> #[trigger] bounds@[k].0 <= bounds@[k].1 <= cs.len(),
    ensures
        r == busy_ns(pieces(cs@, bounds@), i as int),
{
    if i < bounds.len() {
        match parse_field_ns(cs, bounds[i].0, bounds[i].1) {
            Some((false, v, _)) => v,
            _ => 0,
        }
    } else {
        0
    }
}

/// Decodes one data line under the given column names. `None` where the
/// line has fewer than five fields, a required column is missing, or the
/// frame time is not a number strictly between 0 and 1000 milliseconds.
pub fn parse_csv_line(header: &Vec<String>, line: &str) -> (r: Option<FrameRecord>)
    ensures
        r matches Some(rec) ==> parse_record(names_view(header@), line@) == Some(
            (rec.process_name@, rec.frametime_ns, rec.cpu_busy_ns, rec.gpu_busy_ns),
        ),
        r is None ==> parse_record(names_view(header@), line@) is None,
{
    let cs = chars_of(line);
    let bounds = split_range(&cs, 0, cs.len(), ',');
    let ghost fields = split_on(line@, ',');
    assert(cs@.subrange(0, cs@.len() as int) =~= cs@);
    assert(pieces(cs@, bounds@) == fields);
    if bounds.len() < MIN_FIELDS {
        return None;
    }
    let app_name = String::from_str("Application");
    let frametime_name = String::from_str("FrameTime");
    let legacy_frametime_name = String::from_str("MsBetweenPresents");
    let cpu_name = String::from_str("CPUBusy");
    let gpu_name = String::from_str("GPUBusy");
    let gpu_alt_name = String::from_str("GPUTime");
    let app = find_column(header, &app_name, &app_name);
    let ft = find_column(header, &frametime_name, &legacy_frametime_name);
    let cpu = match find_column(header, &cpu_name, &cpu_name) {
        Some(i) => i,
        None => 0,
    };
    let gpu = match find_column(header, &gpu_name, &gpu_alt_name) {
        Some(i) => i,
        None => 0,
    };
    match (app, ft) {
        (Some(a), Some(t)) => {
            if a >= bounds.len() || t >= bounds.len() {
                return None;
            }
            assert(fields[t as int] == cs@.subrange(bounds@[t as int].0 as int, bounds@[t as int].1 as int));
            match parse_field_ns(&cs, bounds[t].0, bounds[t].1) {
                Some((false, v, true)) => {
                    if v < MAX_FRAME_NS {
                        let v = if v == 0 {
                            1
                        } else {
                            v
                        };
                        let process_name = String::from_str(line.substring_char(bounds[a].0, bounds[a].1));
                        assert(fields[a as int] == cs@.subrange(bounds@[a as int].0 as int, bounds@[a as int].1 as int));
                        let cpu_busy_ns = busy_field(&cs, &bounds, cpu);
                        let gpu_busy_ns = busy_field(&cs, &bounds, gpu);
                        Some(FrameRecord { process_name, frametime_ns: v, cpu_busy_ns, gpu_busy_ns })
                    } else {
                        None
                    }
                },
                _ => None,
            }
        },
        _ => None,
    }
}

/// A line of fewer than five fields, a single field among them, is never a
/// record, whatever the header.
pub proof fn lemma_short_line_is_no_record(names: Seq<Seq<char>>, line: Seq<char>)
    requires
        split_on(line, ',').len() < MIN_FIELDS,
    ensures
        parse_record(names, line) is None,
{
}

} // verus!
