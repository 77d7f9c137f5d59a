//! Small decisions behind the hardware reports: whether the vector
//! extension may be used, and how large a processor cache is.

use vstd::prelude::*;

verus! {

/// Bit of the feature word that says the processor has the AVX extension.
pub const FEATURE_AVX: u32 = 0x1000_0000;

/// Bit of the feature word that says the extended control register may be
/// read.
pub const FEATURE_OSXSAVE: u32 = 0x0800_0000;

/// Bit of the extended control register that says AVX state is saved.
pub const XCR0_AVX_STATE: u64 = 0x4;

/// Whether the feature word allows going on to the extended control
/// register: the extension is present and the register readable.
pub open spec fn avx_advertised(features: u32) -> bool {
    (features & FEATURE_AVX) != 0 && (features & FEATURE_OSXSAVE) != 0
}

/// Whether the extended control register must be read to decide. Reading
/// it is only allowed where this holds.
pub fn wants_control_register(features: u32) -> (wanted: bool)
    ensures
        wanted == avx_advertised(features),
{
    if (features & FEATURE_AVX) == 0 {
        return false;
    }
    if (features & FEATURE_OSXSAVE) == 0 {
        return false;
    }
    true
}

/// Whether AVX can be used: the feature word advertises it, and the
/// extended control register, read because of that, has its AVX state bit
/// set.
pub fn check_avx_support(features: u32, control: Option<u64>) -> (supported: bool)
    ensures
        supported == (avx_advertised(features) && match control {
            Some(value) => (value & XCR0_AVX_STATE) != 0,
            None => false,
        }),
{
    if !wants_control_register(features) {
        return false;
    }
    match control {
        Some(value) => (value & XCR0_AVX_STATE) != 0,
        None => false,
    }
}

/// How loudly a status line is reported.
#[derive(Clone, Copy, Debug, PartialEq, Eq)]
pub enum LogLevel {
    Info,
    Warn,
}

/// A line for the log.
#[derive(Clone, Copy, Debug, PartialEq, Eq)]
pub struct StatusLine {
    pub level: LogLevel,
    pub text: &'static str,
}

/// The line that reports whether AVX is available.
pub fn print_avx_status(supported: bool) -> (line: StatusLine)
    ensures
        supported ==> line.level == LogLevel::Info && line.text@
            == "AVX is enabled and safe to use."@,
        !supported ==> line.level == LogLevel::Warn && line.text@
            == "AVX is NOT available. Falling back to SSE/u64."@,
{
    if supported {
        StatusLine { level: LogLevel::Info, text: "AVX is enabled and safe to use." }
    } else {
        StatusLine {
            level: LogLevel::Warn,
            text: "AVX is NOT available. Falling back to SSE/u64.",
        }
    }
}

/// A cache size as the older table field gives it.
#[derive(Clone, Copy, Debug, PartialEq, Eq)]
pub enum CacheSize {
    /// In units of 1 KB.
    Granularity1K(u16),
    /// In units of 64 KB.
    Granularity64K(u16),
}

/// A cache size as the newer, wider table field gives it.
#[derive(Clone, Copy, Debug, PartialEq, Eq)]
pub enum CacheSize2 {
    /// In units of 1 KB.
    Granularity1K(u32),
    /// In units of 64 KB.
    Granularity64K(u32),
}

/// From this many KB on the older field may have run over, and the newer
/// field is consulted.
pub const LEGACY_LIMIT_KB: u64 = 2_096_128;

/// The size in KB that the older field states.
pub open spec fn legacy_kb(size: CacheSize) -> nat {
    match size {
        CacheSize::Granularity1K(units) => units as nat,
        CacheSize::Granularity64K(units) => (units as nat) * 64,
    }
}

/// The size in KB that the newer field states.
pub open spec fn wide_kb(size: CacheSize2) -> nat {
    match size {
        CacheSize2::Granularity1K(units) => units as nat,
        CacheSize2::Granularity64K(units) => (units as nat) * 64,
    }
}

/// The size of a cache in KB: what the older field states where that is
/// below the limit; otherwise what the newer field states; and the older
/// field's value again where there is no newer field.
pub open spec fn cache_kb(size: CacheSize, wide: Option<CacheSize2>) -> nat {
    if legacy_kb(size) < LEGACY_LIMIT_KB {
        legacy_kb(size)
    } else {
        match wide {
            Some(newer) => wide_kb(newer),
            None => legacy_kb(size),
        }
    }
}

/// The size of a cache in KB, from the two fields of its table entry.
pub fn cache_size_kb(size: CacheSize, wide: Option<CacheSize2>) -> (kb: u64)
    ensures
        kb == cache_kb(size, wide),
{
    let legacy: u64 = match size {
        CacheSize::Granularity1K(units) => units as u64,
        CacheSize::Granularity64K(units) => units as u64 * 64,
    };
    if legacy < LEGACY_LIMIT_KB {
        legacy
    } else {
        match wide {
            Some(CacheSize2::Granularity1K(units)) => units as u64,
            Some(CacheSize2::Granularity64K(units)) => units as u64 * 64,
            None => legacy,
        }
    }
}

/// The level of a processor's cache hierarchy.
#[derive(Clone, Copy, Debug, PartialEq, Eq)]
pub enum CacheLevel {
    L1,
    L2,
    L3,
}

/// The level at which a processor uses the cache with this handle, if it
/// uses it at all. The lowest level that names the handle wins.
pub fn cache_level(handle: u16, l1: Option<u16>, l2: Option<u16>, l3: Option<u16>) -> (level:
    Option<CacheLevel>)
    ensures
        level == if l1 == Some(handle) {
            Some(CacheLevel::L1)
        } else if l2 == Some(handle) {
            Some(CacheLevel::L2)
        } else if l3 == Some(handle) {
            Some(CacheLevel::L3)
        } else {
            None::<CacheLevel>
        },
{
    if let Some(h) = l1 {
        if h == handle {
            return Some(CacheLevel::L1);
        }
    }
    if let Some(h) = l2 {
        if h == handle {
            return Some(CacheLevel::L2);
        }
    }
    if let Some(h) = l3 {
        if h == handle {
            return Some(CacheLevel::L3);
        }
    }
    None
}

/// The share of a cache that falls to one core; a processor that does not
/// state its core count counts as one core.
pub fn per_core_kb(total_kb: u64, core_count: Option<u16>) -> (share: u64)
    requires
        core_count != Some(0u16),
    ensures
        share == total_kb as nat / (match core_count {
            Some(cores) => cores as nat,
            None => 1,
        }),
{
    let cores: u64 = match core_count {
        Some(cores) => cores as u64,
        None => 1,
    };
    total_kb / cores
}

/// What a configuration table entry points to, as far as the hardware
/// report cares.
#[derive(Clone, Copy, Debug, PartialEq, Eq)]
pub enum TableKind {
    /// The 64-bit SMBIOS entry point.
    Smbios3,
    /// The older 32-bit SMBIOS entry point.
    Smbios,
    /// Anything else.
    Other,
}

/// Which entry a walk over `kinds` ends up with: the first 64-bit entry
/// point where there is one, otherwise the last 32-bit one, otherwise none.
pub open spec fn chosen_table(kinds: Seq<TableKind>, choice: Option<int>) -> bool {
    match choice {
        Some(i) => {
            &&& 0 <= i < kinds.len()
            &&& if kinds[i] == TableKind::Smbios3 {
                forall|j: int| 0 <= j < i ==> kinds[j] != TableKind::Smbios3
            } else {
                &&& kinds[i] == TableKind::Smbios
                &&& forall|j: int| 0 <= j < kinds.len() ==> kinds[j] != TableKind::Smbios3
                &&& forall|j: int| i < j < kinds.len() ==> kinds[j] != TableKind::Smbios
            }
        },
        None => forall|j: int| 0 <= j < kinds.len() ==> kinds[j] == TableKind::Other,
    }
}

/// Picks the SMBIOS entry point among the configuration tables: the walk
/// stops at the first 64-bit one; until then each 32-bit one replaces the
/// one before it.
pub fn select_smbios(kinds: &[TableKind]) -> (choice: Option<usize>)
    ensures
        chosen_table(
            kinds@,
            match choice {
                Some(i) => Some(i as int),
                None => None,
            },
        ),
{
    let mut choice: Option<usize> = None;
    let mut i: usize = 0;
    while i < kinds.len()
        invariant
            i <= kinds.len(),
            forall|j: int| 0 <= j < i ==> kinds@[j] != TableKind::Smbios3,
            match choice {
                Some(found) => {
                    &&& found < i
                    &&& kinds@[found as int] == TableKind::Smbios
                    &&& forall|j: int| found < j < i ==> kinds@[j] != TableKind::Smbios
                },
                None => forall|j: int| 0 <= j < i ==> kinds@[j] == TableKind::Other,
            },
        decreases kinds.len() - i,
    {
        match kinds[i] {
            TableKind::Smbios3 => {
                return Some(i);
            },
            TableKind::Smbios => {
                choice = Some(i);
            },
            TableKind::Other => {},
        }
        i += 1;
    }
    choice
}

} // verus!
