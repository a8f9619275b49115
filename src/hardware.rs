//! Presentation rules for hardware inventory values.

use crate::metrics::{round_div, rounded_div};
use crate::text::{chars_of, find_chars, find_sub, occurs_at, occurs_at_index, trim, trim_range};
use vstd::prelude::*;

verus! {

/// Bytes in a gibibyte.
pub const BYTES_PER_GIB: u128 = 1_073_741_824;

/// `s` with every non-overlapping `pat` (taken from the left) replaced by `rep`,
/// as `str::replace` does for a non-empty pattern.
pub open spec fn replace_all(s: Seq<char>, pat: Seq<char>, rep: Seq<char>) -> Seq<char>
    decreases s.len(),
{
    if s.len() == 0 {
        s
    } else if pat.len() > 0 && occurs_at(s, pat, 0) {
        rep + replace_all(s.skip(pat.len() as int), pat, rep)
    } else {
        seq![s[0]] + replace_all(s.drop_first(), pat, rep)
    }
}

/// A CPU's brand string without trademark marks, doubled spaces and the
/// clock suffix that starts at `" @ "`.
pub open spec fn cleaned_cpu_name(raw: Seq<char>) -> Seq<char> {
    let a = replace_all(raw, "(R)"@, Seq::empty());
    let b = replace_all(a, "(TM)"@, Seq::empty());
    let n = trim(replace_all(b, "  "@, " "@));
    match find_sub(n, " @ "@) {
        Some(i) => trim(n.take(i)),
        None => n,
    }
}

/// Replaces every non-overlapping `pat` in `s` by `rep`.
pub fn replace_str(s: &str, pat: &str, rep: &str) -> (r: String)
    requires
        pat@.len() > 0,
    ensures
        r@ == replace_all(s@, pat@, rep@),
{
    let cs = chars_of(s);
    let pc = chars_of(pat);
    let mut out = String::new();
    let mut i: usize = 0;
    assert(cs@.skip(0) =~= cs@);
    assert(out@ + replace_all(cs@, pat@, rep@) =~= replace_all(cs@, pat@, rep@));
    while i < cs.len()
        invariant
            i <= cs.len(),
            cs@ == s@,
            pc@ == pat@,
            pc@.len() > 0,
            out@ + replace_all(cs@.skip(i as int), pat@, rep@) == replace_all(s@, pat@, rep@),
        decreases cs.len() - i,
    {
        let ghost rest = cs@.skip(i as int);
        if occurs_at_index(&cs, &pc, i) {
            proof {
                assert(rest.subrange(0, pat@.len() as int) =~= cs@.subrange(i as int, i + pat@.len()));
                assert(rest.skip(pat@.len() as int) =~= cs@.skip(i + pc@.len()));
                assert((out@ + rep@) + replace_all(cs@.skip(i + pc@.len()), pat@, rep@) =~= out@
                    + replace_all(rest, pat@, rep@));
            }
            out.append(rep);
            i = i + pc.len();
        } else {
            proof {
                if occurs_at(rest, pat@, 0) {
                    assert(rest.subrange(0, pat@.len() as int) =~= cs@.subrange(i as int, i + pat@.len()));
                }
                assert(rest.drop_first() =~= cs@.skip(i + 1));
                assert(seq![rest[0]] =~= cs@.subrange(i as int, i + 1));
            }
            let one = s.substring_char(i, i + 1);
            proof {
                assert((out@ + one@) + replace_all(cs@.skip(i + 1), pat@, rep@) =~= out@
                    + replace_all(rest, pat@, rep@));
            }
            out.append(one);
            i = i + 1;
        }
    }
    assert(cs@.skip(i as int) =~= Seq::<char>::empty());
    assert(out@ + Seq::<char>::empty() =~= out@);
    out
}

/// `s` without leading and trailing spaces.
pub fn trim_str(s: &str) -> (r: String)
    ensures
        r@ == trim(s@),
{
    let cs = chars_of(s);
    let (lo, hi) = trim_range(&cs, 0, cs.len());
    assert(cs@.subrange(0, cs@.len() as int) =~= cs@);
    String::from_str(s.substring_char(lo, hi))
}

/// Tidies a CPU brand string for display.
pub fn clean_cpu_name(raw: &str) -> (r: String)
    ensures
        r@ == cleaned_cpu_name(raw@),
{
    proof {
        reveal_strlit("(R)");
        reveal_strlit("(TM)");
        reveal_strlit("  ");
        reveal_strlit("");
    }
    assert(""@ =~= Seq::<char>::empty());
    let a = replace_str(raw, "(R)", "");
    let b = replace_str(a.as_str(), "(TM)", "");
    let c = replace_str(b.as_str(), "  ", " ");
    let name = trim_str(c.as_str());
    assert(name@ == trim(replace_all(replace_all(replace_all(raw@, "(R)"@, Seq::empty()), "(TM)"@, Seq::empty()), "  "@, " "@)));
    let cs = chars_of(name.as_str());
    let at = chars_of(" @ ");
    match find_chars(&cs, &at) {
        Some(i) => {
            proof {
                let k = choose|k: int| crate::text::is_first_occurrence(cs@, at@, k);
                assert(k == i);
            }
            let head = name.as_str().substring_char(0, i);
            assert(head@ =~= name@.take(i as int));
            trim_str(head)
        },
        None => name,
    }
}

/// A byte count in tenths of a gibibyte, rounded.
pub open spec fn tenths_gib(bytes: int) -> int {
    round_div(bytes * 10, BYTES_PER_GIB as int)
}

/// A byte count in tenths of a gibibyte, rounded.
pub fn bytes_to_tenths_gib(bytes: u64) -> (r: u64)
    ensures
        r == tenths_gib(bytes as int),
{
    let r = rounded_div(bytes as u128 * 10, BYTES_PER_GIB);
    assert(r <= bytes as int) by (nonlinear_arith)
        requires r == (2 * (bytes as int * 10) + 1_073_741_824int) / (2 * 1_073_741_824int);
    r as u64
}

/// Display adapters that are virtual: the name mentions Microsoft, Basic or Remote.
pub open spec fn is_virtual_adapter(name: Seq<char>) -> bool {
    find_sub(name, "Microsoft"@) is Some || find_sub(name, "Basic"@) is Some || find_sub(
        name,
        "Remote"@,
    ) is Some
}

/// Whether a display adapter is virtual and is left out of the inventory.
pub fn virtual_adapter(name: &str) -> (r: bool)
    ensures
        r == is_virtual_adapter(name@),
{
    let cs = chars_of(name);
    let a = chars_of("Microsoft");
    let b = chars_of("Basic");
    let c = chars_of("Remote");
    find_chars(&cs, &a).is_some() || find_chars(&cs, &b).is_some() || find_chars(&cs, &c).is_some()
}

/// A CPU's display name and physical core count: the first core's brand
/// string tidied (or `Unknown CPU` where no core is listed), and the physical
/// core count where known, else half the logical threads.
pub fn cpu_identity(brand: Option<String>, threads: usize, physical_cores: Option<usize>) -> (r: (
    String,
    usize,
))
    ensures
        brand matches Some(b) ==> r.0@ == cleaned_cpu_name(b@),
        brand is None ==> r.0@ == cleaned_cpu_name("Unknown CPU"@),
        physical_cores matches Some(c) ==> r.1 == c,
        physical_cores is None ==> r.1 == threads / 2,
{
    let name = match brand {
        Some(b) => clean_cpu_name(b.as_str()),
        None => clean_cpu_name("Unknown CPU"),
    };
    let cores = match physical_cores {
        Some(c) => c,
        None => threads / 2,
    };
    (name, cores)
}

/// A display adapter as the inventory reports it.
pub struct GpuSummary {
    pub name: String,
    pub vram_tenths_gib: u64,
    pub driver_version: String,
    /// Horizontal and vertical resolution, where both are known (non-zero).
    pub resolution: Option<(u32, u32)>,
}

/// Summarises one display adapter from what the system query returned; `None`
/// for a virtual adapter. A missing driver version reads as `Unknown`.
pub fn gpu_summary(
    name: String,
    adapter_ram_bytes: u64,
    driver_version: Option<String>,
    h_res: u32,
    v_res: u32,
) -> (r: Option<GpuSummary>)
    ensures
        is_virtual_adapter(name@) ==> r is None,
        !is_virtual_adapter(name@) ==> (r matches Some(g) && {
            &&& g.name@ == name@
            &&& g.vram_tenths_gib == tenths_gib(adapter_ram_bytes as int)
            &&& (driver_version matches Some(d) ==> g.driver_version@ == d@)
            &&& (driver_version is None ==> g.driver_version@ == "Unknown"@)
            &&& (h_res > 0 && v_res > 0 ==> g.resolution == Some((h_res, v_res)))
            &&& (h_res == 0 || v_res == 0 ==> g.resolution is None)
        }),
{
    if virtual_adapter(name.as_str()) {
        return None;
    }
    let driver_version = match driver_version {
        Some(d) => d,
        None => String::from_str("Unknown"),
    };
    let resolution = if h_res > 0 && v_res > 0 {
        Some((h_res, v_res))
    } else {
        None
    };
    Some(GpuSummary { name, vram_tenths_gib: bytes_to_tenths_gib(adapter_ram_bytes), driver_version, resolution })
}

} // verus!
