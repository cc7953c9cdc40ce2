//! Film-adapter detection. The LS-50 has no "which adapter?" command; infer it from
//! the VPD page 0x00 supported-pages list. Keyed off firmware page codes, not Nikon's
//! labels (which confuse MA-21 vs SA-21).

use crate::scsi::cdbs::VpdPage;
use vstd::prelude::*;

verus! {

/// Film adapter currently loaded, inferred from the supported-VPD-pages list.
#[derive(Debug, Clone, Copy, PartialEq, Eq, Structural)]
pub enum Holder {
    /// No adapter-specific page. Base pages 0xF8/0xFB/0xFC are advertised even with
    /// an adapter loaded, so this is the no-adapter fallback, not a positive match.
    NoAdapter,
    /// Mounted-slide adapter - page 0x46 without 0xE2.
    Mount,
    /// Strip-film feeder (SA-21) or FH-3 strip holder - pages 0x43/0x44.
    Strip,
    /// Strip feeder in 6-frame mode - page 0x47.
    SixStrip,
    /// APS / IX240 adapter - pages 0x45/0xF1.
    Format240,
    /// Motorized auto-feeder - page 0x46 with 0xE2. Confirmed SA-21 strip feeder.
    Feeder,
    /// Recognized pages absent (e.g. 36-strip mode, whose page 0x10 collides with the
    /// standard device-id page and can't be distinguished here).
    Unknown,
}

impl Holder {
    /// EVPD page code for the supported-pages list.
    pub const SUPPORTED_PAGES_CODE: u8 = 0x00;

    /// Allocation length NikonScan uses for the supported-pages read (`0xFF`).
    pub const ALLOCATION_LENGTH: u8 = 0xFF;

    /// The adapter that a list of supported pages stands for.
    pub open spec fn of_pages(page_code: u8, pages: Seq<u8>) -> Holder {
        if page_code != Self::SUPPORTED_PAGES_CODE {
            Holder::Unknown
        } else if pages.contains(0x43) || pages.contains(0x44) {
            Holder::Strip
        } else if pages.contains(0x47) {
            Holder::SixStrip
        } else if pages.contains(0x45) || pages.contains(0xF1) {
            Holder::Format240
        } else if pages.contains(0x46) {
            if pages.contains(0xE2) {
                Holder::Feeder
            } else {
                Holder::Mount
            }
        } else if pages.contains(0xF8) || pages.contains(0xFA) || pages.contains(0xFB)
            || pages.contains(0xFC) {
            Holder::NoAdapter
        } else {
            Holder::Unknown
        }
    }

    /// Classify the adapter from a VPD page 0x00 response (`page.data` = supported
    /// page-code bytes).
    pub fn from_supported_pages(page: &VpdPage) -> (r: Holder)
        ensures
            r == Holder::of_pages(page.page_code, page.data@),
    {
        if page.page_code != Self::SUPPORTED_PAGES_CODE {
            return Holder::Unknown;
        }
        let pages: &Vec<u8> = &page.data;
        if has(pages, 0x43) || has(pages, 0x44) {
            Holder::Strip
        } else if has(pages, 0x47) {
            Holder::SixStrip
        } else if has(pages, 0x45) || has(pages, 0xF1) {
            Holder::Format240
        } else if has(pages, 0x46) {
            if has(pages, 0xE2) {
                Holder::Feeder
            } else {
                Holder::Mount
            }
        } else if has(pages, 0xF8) || has(pages, 0xFA) || has(pages, 0xFB) || has(pages, 0xFC) {
            Holder::NoAdapter
        } else {
            Holder::Unknown
        }
    }

    /// The adapter's name, as it is shown.
    pub open spec fn spelled(self) -> Seq<char> {
        match self {
            Holder::NoAdapter => "None"@,
            Holder::Mount => "Mount"@,
            Holder::Strip => "Strip"@,
            Holder::SixStrip => "SixStrip"@,
            Holder::Format240 => "Format240"@,
            Holder::Feeder => "Feeder"@,
            Holder::Unknown => "Unknown"@,
        }
    }

    /// The adapter's name.
    pub fn name(self) -> (r: &'static str)
        ensures
            r@ == self.spelled(),
    {
        match self {
            Holder::NoAdapter => "None",
            Holder::Mount => "Mount",
            Holder::Strip => "Strip",
            Holder::SixStrip => "SixStrip",
            Holder::Format240 => "Format240",
            Holder::Feeder => "Feeder",
            Holder::Unknown => "Unknown",
        }
    }
}

/// Whether `code` is among `pages`.
fn has(pages: &Vec<u8>, code: u8) -> (r: bool)
    ensures
        r == pages@.contains(code),
{
    for i in 0..pages.len()
        invariant
            forall|j: int| 0 <= j < i ==> pages@[j] != code,
    {
        if pages[i] == code {
            return true;
        }
    }
    false
}

/// Adapters are shown by their names, no two of them alike.
pub proof fn lemma_adapters_are_named(a: Holder, b: Holder)
    ensures
        Holder::NoAdapter.spelled() == "None"@,
        Holder::Mount.spelled() == "Mount"@,
        Holder::Strip.spelled() == "Strip"@,
        Holder::SixStrip.spelled() == "SixStrip"@,
        Holder::Format240.spelled() == "Format240"@,
        Holder::Feeder.spelled() == "Feeder"@,
        Holder::Unknown.spelled() == "Unknown"@,
        a.spelled() == b.spelled() ==> a == b,
{
    reveal_strlit("None");
    reveal_strlit("Mount");
    reveal_strlit("Strip");
    reveal_strlit("SixStrip");
    reveal_strlit("Format240");
    reveal_strlit("Feeder");
    reveal_strlit("Unknown");
    if a.spelled() == b.spelled() {
        assert(a.spelled().len() == b.spelled().len());
        assert(a.spelled()[0] == b.spelled()[0]);
    }
}

} // verus!
