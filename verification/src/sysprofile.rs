//! What kind of device this is, and which quality suits it.
use crate::text::{
    ascii, ascii_lower, chars_of, contains, has_part, lowercase_text, number_in, parse_number, replace,
    replaced, string_of, trim, trimmed,
};
use vstd::prelude::*;

verus! {

/// A device with this many bytes of memory or fewer, 4.5 GiB, counts as low-end.
pub const LOW_END_RAM_BYTES: u64 = 4_831_838_208;

/// The quality that a device starts with.
#[derive(Clone, Copy, PartialEq, Eq, Debug, Structural)]
pub enum QualityProfile {
    Ultralight,
    Balanced,
}

impl QualityProfile {
    /// The name of the profile.
    pub fn name(&self) -> (out: &'static str)
        ensures
            out@ == match *self {
                QualityProfile::Ultralight => "ultralight"@,
                QualityProfile::Balanced => "balanced"@,
            },
    {
        match self {
            QualityProfile::Ultralight => "ultralight",
            QualityProfile::Balanced => "balanced",
        }
    }
}

/// What the system says of the device.
pub struct HardwareFacts {
    /// Name of the device, where it has one.
    pub hostname: Option<String>,
    /// Name of the operating system.
    pub os_name: String,
    /// Brand of the first processor, where there is one.
    pub cpu_brand: Option<String>,
    /// Number of processor cores.
    pub cpu_cores: usize,
    /// Bytes of memory.
    pub total_memory: u64,
}

/// A picture of the device, taken once at the start.
pub struct SystemProfile {
    pub hostname: String,
    pub os_name: String,
    pub cpu_brand: String,
    pub cpu_cores: usize,
    pub total_ram_mb: u64,
    pub is_low_end: bool,
    pub default_profile: QualityProfile,
}

/// Name of a device.
pub open spec fn device_name(found: Option<String>) -> Seq<char> {
    match found {
        Some(name) => name@,
        None => "Mi PC"@,
    }
}

/// Brand of a processor, without the white space around it; there is a text for one that
/// is not known.
pub open spec fn brand_text(found: Option<String>) -> Seq<char> {
    match found {
        Some(brand) => if trimmed(brand@).len() == 0 {
            "CPU desconocida"@
        } else {
            trimmed(brand@)
        },
        None => "CPU desconocida"@,
    }
}

/// Whether the lowercase brand of a processor is one of those that save power.
pub open spec fn saves_power(brand: Seq<char>) -> bool {
    has_part(brand, "celeron"@) || has_part(brand, "atom"@) || has_part(brand, "pentium"@)
}

/// Name of a device.
pub fn device_name_or_default(found: Option<String>) -> (out: String)
    ensures
        out@ == device_name(found),
{
    match found {
        Some(name) => name,
        None => "Mi PC".to_owned(),
    }
}

fn brand_or_default(found: Option<String>) -> (out: String)
    ensures
        out@ == brand_text(found),
{
    match found {
        Some(brand) => {
            let cs = chars_of(brand.as_str());
            let clean: &[char] = trim(cs.as_slice());
            if clean.len() == 0 {
                "CPU desconocida".to_owned()
            } else {
                string_of(clean)
            }
        },
        None => "CPU desconocida".to_owned(),
    }
}

/// Whether the lowercase brand of a processor is one of those that save power.
pub fn is_low_power(brand: &str) -> (out: bool)
    ensures
        out == saves_power(brand@),
{
    let cs = chars_of(brand);
    let celeron = chars_of("celeron");
    let atom = chars_of("atom");
    let pentium = chars_of("pentium");
    contains(cs.as_slice(), celeron.as_slice()) || contains(cs.as_slice(), atom.as_slice())
        || contains(cs.as_slice(), pentium.as_slice())
}

/// Megabytes in a number of bytes, rounded down.
pub fn megabytes(bytes: u64) -> (mb: u64)
    ensures
        mb == bytes / 1_048_576,
{
    bytes / 1_048_576
}

/// Whether a device with so many bytes of memory, and a processor with this lowercase brand, is
/// low-end.
pub open spec fn low_end(memory: u64, brand: Seq<char>) -> bool {
    memory <= LOW_END_RAM_BYTES || saves_power(brand)
}

/// The picture of a device. It is low-end where it has little memory or a processor that
/// saves power, and starts with the ultralight profile then.
pub fn profile(facts: HardwareFacts) -> (out: SystemProfile)
    ensures
        out.hostname@ == device_name(facts.hostname),
        out.os_name == facts.os_name,
        out.cpu_brand@ == brand_text(facts.cpu_brand),
        out.cpu_cores == facts.cpu_cores,
        out.total_ram_mb == facts.total_memory / 1_048_576,
        out.is_low_end == (facts.total_memory <= LOW_END_RAM_BYTES || saves_power(
            lowercase_text(brand_text(facts.cpu_brand)),
        )),
        ascii(brand_text(facts.cpu_brand)) ==> lowercase_text(brand_text(facts.cpu_brand))
            == brand_text(facts.cpu_brand).map_values(|c: char| ascii_lower(c)),
        out.default_profile == if out.is_low_end {
            QualityProfile::Ultralight
        } else {
            QualityProfile::Balanced
        },
        out.is_low_end == low_end(
            facts.total_memory,
            lowercase_text(brand_text(facts.cpu_brand)),
        ),
{
    let cpu_brand = brand_or_default(facts.cpu_brand);
    let lower = cpu_brand.as_str().to_lowercase();
    let is_low_end = facts.total_memory <= LOW_END_RAM_BYTES || is_low_power(lower.as_str());
    let default_profile = if is_low_end {
        QualityProfile::Ultralight
    } else {
        QualityProfile::Balanced
    };
    SystemProfile {
        hostname: device_name_or_default(facts.hostname),
        os_name: facts.os_name,
        cpu_brand,
        cpu_cores: facts.cpu_cores,
        total_ram_mb: megabytes(facts.total_memory),
        is_low_end,
        default_profile,
    }
}

/// Megabytes that the program itself takes up, where the system knows it.
pub fn client_ram_mb(memory: Option<u64>) -> (mb: u64)
    ensures
        mb == if let Some(bytes) = memory {
            bytes / 1_048_576
        } else {
            0
        },
{
    match memory {
        Some(bytes) => megabytes(bytes),
        None => 0,
    }
}

// ---- Name of the operating system ------------------------------------------

/// Number of a build; one that is missing or unreadable counts as zero.
pub open spec fn build_number(build: Option<Seq<char>>) -> int {
    match build {
        Some(text) => match number_in(text, u32::MAX as int) {
            Some(n) => n,
            None => 0,
        },
        None => 0,
    }
}

/// Name of a Windows product. From build 22000 on it is Windows 11, though the product
/// says Windows 10.
pub open spec fn product_name(product: Seq<char>, build: int) -> Seq<char> {
    if build >= 22000 && has_part(product, "Windows 10"@) {
        replaced(product, "Windows 10"@, "Windows 11"@)
    } else if product.len() == 0 {
        "Windows"@
    } else {
        product
    }
}

/// Name of a Windows system: that of its product and, where there is one, its version.
pub open spec fn windows_name(
    product: Seq<char>,
    display: Seq<char>,
    build: Option<Seq<char>>,
) -> Seq<char> {
    let name = product_name(product, build_number(build));
    if display.len() == 0 {
        name
    } else {
        name + " "@ + display
    }
}

/// Name of a Windows system, from what its registry says.
pub fn windows_os_name(product: &str, display: &str, build: Option<&str>) -> (out: String)
    ensures
        out@ == windows_name(
            product@,
            display@,
            if let Some(text) = build {
                Some(text@)
            } else {
                None
            },
        ),
{
    proof {
        reveal_strlit("Windows 10");
    }
    let number: u64 = match build {
        Some(text) => {
            let cs = chars_of(text);
            match parse_number(cs.as_slice(), u32::MAX as u64) {
                Some(n) => n,
                None => 0,
            }
        },
        None => 0,
    };
    let cs = chars_of(product);
    let ten = chars_of("Windows 10");
    let name = if number >= 22000 && contains(cs.as_slice(), ten.as_slice()) {
        let eleven = chars_of("Windows 11");
        let renamed = replace(cs.as_slice(), ten.as_slice(), eleven.as_slice());
        string_of(renamed.as_slice())
    } else if product.is_empty() {
        "Windows".to_owned()
    } else {
        product.to_owned()
    };
    if display.is_empty() {
        name
    } else {
        name.concat(" ").concat(display)
    }
}

/// Name of a Windows system whose registry cannot be read.
pub fn unknown_windows_name() -> (out: String)
    ensures
        out@ == "Windows"@,
{
    "Windows".to_owned()
}

/// Name of another system, where it gives one.
pub fn other_os_name(found: Option<String>) -> (out: String)
    ensures
        out@ == if let Some(name) = found {
            name@
        } else {
            "Sistema"@
        },
{
    match found {
        Some(name) => name,
        None => "Sistema".to_owned(),
    }
}

// ---- Laws ------------------------------------------------------------------

/// A processor saves power where its brand names one of three families, wherever it does, and
/// nowhere else. A device with such a processor, or with four and a half gibibytes or less, is
/// low-end.
pub proof fn law_three_families_save_power(before: Seq<char>, after: Seq<char>)
    ensures
        saves_power(before + "celeron"@ + after),
        saves_power(before + "atom"@ + after),
        saves_power(before + "pentium"@ + after),
        !has_part(before, "celeron"@) && !has_part(before, "atom"@) && !has_part(
            before,
            "pentium"@,
        ) ==> !saves_power(before),
        LOW_END_RAM_BYTES == 9 * (1024 * 1024 * 1024) / 2,
{
    crate::text::law_beginnings_and_ends_agree(after, "celeron"@, before);
    crate::text::law_beginnings_and_ends_agree(after, "atom"@, before);
    crate::text::law_beginnings_and_ends_agree(after, "pentium"@, before);
}

/// A device has the name that the system gives it, and its processor the brand without the
/// white space around it; where there is none, a text says so.
pub proof fn law_names_are_kept(name: String, brand: String)
    ensures
        device_name(Some(name)) == name@,
        device_name(None) == "Mi PC"@,
        trimmed(brand@).len() > 0 ==> brand_text(Some(brand)) == trimmed(brand@),
        trimmed(brand@).len() == 0 ==> brand_text(Some(brand)) == "CPU desconocida"@,
        brand_text(None) == "CPU desconocida"@,
{
}

/// Windows 11 calls itself Windows 10 in its registry; its build tells it apart. From build
/// 22000 on the name is corrected, before that it is left, and so is any other name.
pub proof fn law_windows_11_is_known_by_its_build(
    before: Seq<char>,
    after: Seq<char>,
    build: nat,
)
    requires
        build <= u32::MAX,
        forall|i: int|
            0 <= i < before.len() ==> !crate::text::occurs_at(
                before + "Windows 10"@ + after,
                "Windows 10"@,
                i,
            ),
        !has_part(after, "Windows 10"@),
    ensures
        ({
            let product = before + "Windows 10"@ + after;
            let number = Some(crate::text::decimal_text(build));
            windows_name(product, Seq::empty(), number) == if build >= 22000 {
                before + "Windows 11"@ + after
            } else {
                product
            }
        }),
{
    reveal_strlit("Windows 10");
    let product = before + "Windows 10"@ + after;
    crate::text::law_decimal_reads_back(build, u32::MAX as int);
    crate::text::law_occurrences_are_replaced(before, "Windows 10"@, "Windows 11"@, after);
    crate::text::law_beginnings_and_ends_agree(after, "Windows 10"@, before);
}

/// The name of a Windows system is that of its product, or "Windows" where it has none; the
/// version follows behind a space, where there is one. A build that is missing or no number
/// corrects nothing.
pub proof fn law_the_version_follows_the_product(
    product: Seq<char>,
    display: Seq<char>,
    build: Option<Seq<char>>,
)
    ensures
        display.len() > 0 ==> windows_name(product, display, build) == windows_name(
            product,
            Seq::empty(),
            build,
        ) + seq![' '] + display,
        product.len() == 0 ==> windows_name(product, Seq::empty(), build) == "Windows"@,
        product.len() > 0 && !has_part(product, "Windows 10"@) ==> windows_name(
            product,
            Seq::empty(),
            build,
        ) == product,
        product.len() > 0 && (build is None || number_in(build->0, u32::MAX as int) is None)
            ==> windows_name(product, Seq::empty(), build) == product,
{
    reveal_strlit(" ");
    reveal_strlit("Windows 10");
    assert(" "@ =~= seq![' ']);
    if product.len() == 0 && has_part(product, "Windows 10"@) {
        let i = choose|i: int| crate::text::occurs_at(product, "Windows 10"@, i);
        assert(false);
    }
}

/// A device is low-end with four and a half gibibytes or less, whatever its processor, and with
/// a processor that saves power, however much memory it has. A device with less memory than a
/// low-end one is low-end too.
pub proof fn law_little_memory_makes_a_device_low_end(
    memory: u64,
    less: u64,
    brand: Seq<char>,
)
    requires
        less <= memory,
    ensures
        memory <= 4_831_838_208 ==> low_end(memory, brand),
        saves_power(brand) ==> low_end(memory, brand),
        memory > 4_831_838_208 && !saves_power(brand) ==> !low_end(memory, brand),
        low_end(memory, brand) ==> low_end(less, brand),
{
}

} // verus!
