//! The locales that Roblox supports, and the usual locale of each country.
use crate::text::str_eq;
use vstd::prelude::*;

verus! {

/// A supported locale: its code, English name and native name.
#[derive(Debug, Clone, PartialEq)]
pub struct LocaleInfo {
    pub code: &'static str,
    pub name: &'static str,
    pub native_name: &'static str,
}

impl LocaleInfo {
    pub open spec fn view(&self) -> (Seq<char>, Seq<char>, Seq<char>) {
        (self.code@, self.name@, self.native_name@)
    }
}

/// The supported locales, in their fixed order.
pub open spec fn roblox_locale_table() -> Seq<(Seq<char>, Seq<char>, Seq<char>)> {
    seq![        ("en"@, "English"@, "English"@),
        ("es"@, "Spanish"@, "Español"@),
        ("fr"@, "French"@, "Français"@),
        ("de"@, "German"@, "Deutsch"@),
        ("pt"@, "Portuguese"@, "Português"@),
        ("id"@, "Indonesian"@, "Bahasa Indonesia"@),
        ("it"@, "Italian"@, "Italiano"@),
        ("ja"@, "Japanese"@, "日本語"@),
        ("ko"@, "Korean"@, "한국어"@),
        ("ru"@, "Russian"@, "Русский"@),
        ("th"@, "Thai"@, "ไทย"@),
        ("tr"@, "Turkish"@, "Türkçe"@),
        ("vi"@, "Vietnamese"@, "Tiếng Việt"@),
        ("pl"@, "Polish"@, "Polski"@),
        ("zh-cn"@, "Chinese (Simplified)"@, "简体中文"@),
        ("zh-tw"@, "Chinese (Traditional)"@, "繁體中文"@),
        ("uk"@, "Ukrainian"@, "Українська"@)
    ]
}

/// The codes of the supported locales.
pub open spec fn roblox_locale_codes() -> Seq<Seq<char>> {
    roblox_locale_table().map_values(|l: (Seq<char>, Seq<char>, Seq<char>)| l.0)
}

/// All supported locales.
pub fn get_roblox_locales() -> (r: Vec<LocaleInfo>)
    ensures
        r@.map_values(|l: LocaleInfo| l@) == roblox_locale_table(),
{
    let mut v: Vec<LocaleInfo> = Vec::new();
    v.push(LocaleInfo { code: "en", name: "English", native_name: "English" });
    v.push(LocaleInfo { code: "es", name: "Spanish", native_name: "Español" });
    v.push(LocaleInfo { code: "fr", name: "French", native_name: "Français" });
    v.push(LocaleInfo { code: "de", name: "German", native_name: "Deutsch" });
    v.push(LocaleInfo { code: "pt", name: "Portuguese", native_name: "Português" });
    v.push(LocaleInfo { code: "id", name: "Indonesian", native_name: "Bahasa Indonesia" });
    v.push(LocaleInfo { code: "it", name: "Italian", native_name: "Italiano" });
    v.push(LocaleInfo { code: "ja", name: "Japanese", native_name: "日本語" });
    v.push(LocaleInfo { code: "ko", name: "Korean", native_name: "한국어" });
    v.push(LocaleInfo { code: "ru", name: "Russian", native_name: "Русский" });
    v.push(LocaleInfo { code: "th", name: "Thai", native_name: "ไทย" });
    v.push(LocaleInfo { code: "tr", name: "Turkish", native_name: "Türkçe" });
    v.push(LocaleInfo { code: "vi", name: "Vietnamese", native_name: "Tiếng Việt" });
    v.push(LocaleInfo { code: "pl", name: "Polish", native_name: "Polski" });
    v.push(LocaleInfo { code: "zh-cn", name: "Chinese (Simplified)", native_name: "简体中文" });
    v.push(LocaleInfo { code: "zh-tw", name: "Chinese (Traditional)", native_name: "繁體中文" });
    v.push(LocaleInfo { code: "uk", name: "Ukrainian", native_name: "Українська" });
    assert(v@.map_values(|l: LocaleInfo| l@) =~= roblox_locale_table());
    v
}

/// Whether `code` is a supported locale code (codes are lower case, e.g. `zh-cn`).
pub fn is_roblox_locale(code: &str) -> (r: bool)
    ensures
        r == roblox_locale_codes().contains(code@),
{
    let locales = get_roblox_locales();
    let ghost codes = roblox_locale_codes();
    assert(codes.len() == locales@.len());
    let mut i: usize = 0;
    while i < locales.len()
        invariant
            i <= locales@.len(),
            codes == roblox_locale_codes(),
            codes.len() == locales@.len(),
            locales@.map_values(|l: LocaleInfo| l@) == roblox_locale_table(),
            forall|j: int| 0 <= j < i ==> codes[j] != code@,
        decreases locales@.len() - i,
    {
        assert(codes[i as int] == locales@[i as int].code@);
        if str_eq(locales[i].code, code) {
            return true;
        }
        i = i + 1;
    }
    false
}

/// The codes of all supported locales, in the order of [`get_roblox_locales`].
pub fn get_supported_locale_codes() -> (r: Vec<&'static str>)
    ensures
        r@.map_values(|c: &'static str| c@) == roblox_locale_codes(),
{
    let locales = get_roblox_locales();
    let mut codes: Vec<&'static str> = Vec::new();
    let mut i: usize = 0;
    while i < locales.len()
        invariant
            i <= locales@.len(),
            locales@.map_values(|l: LocaleInfo| l@) == roblox_locale_table(),
            codes@.map_values(|c: &'static str| c@) == roblox_locale_codes().subrange(0, i as int),
        decreases locales@.len() - i,
    {
        let ghost before = codes@.map_values(|c: &'static str| c@);
        assert(locales@.map_values(|l: LocaleInfo| l@)[i as int] == roblox_locale_table()[i as int]);
        assert(roblox_locale_codes()[i as int] == locales@[i as int].code@);
        codes.push(locales[i].code);
        assert(codes@.map_values(|c: &'static str| c@) =~= before.push(locales@[i as int].code@));
        assert(codes@.map_values(|c: &'static str| c@) =~= roblox_locale_codes().subrange(0, i + 1));
        i = i + 1;
    }
    assert(roblox_locale_codes().subrange(0, locales@.len() as int) =~= roblox_locale_codes());
    codes
}

/// Pairs of a country code and the locale usually used there.
pub open spec fn country_locale_pairs() -> Seq<(Seq<char>, Seq<char>)> {
    seq![
        ("US"@, "en"@),
        ("GB"@, "en"@),
        ("CA"@, "en"@),
        ("AU"@, "en"@),
        ("NZ"@, "en"@),
        ("IE"@, "en"@),
        ("ZA"@, "en"@),
        ("SG"@, "en"@),
        ("PH"@, "en"@),
        ("ES"@, "es"@),
        ("MX"@, "es"@),
        ("AR"@, "es"@),
        ("CO"@, "es"@),
        ("CL"@, "es"@),
        ("PE"@, "es"@),
        ("VE"@, "es"@),
        ("EC"@, "es"@),
        ("GT"@, "es"@),
        ("CU"@, "es"@),
        ("BO"@, "es"@),
        ("DO"@, "es"@),
        ("HN"@, "es"@),
        ("PY"@, "es"@),
        ("SV"@, "es"@),
        ("NI"@, "es"@),
        ("CR"@, "es"@),
        ("PA"@, "es"@),
        ("UY"@, "es"@),
        ("FR"@, "fr"@),
        ("BE"@, "fr"@),
        ("CH"@, "fr"@),
        ("LU"@, "fr"@),
        ("MC"@, "fr"@),
        ("DE"@, "de"@),
        ("AT"@, "de"@),
        ("LI"@, "de"@),
        ("PT"@, "pt"@),
        ("BR"@, "pt"@),
        ("AO"@, "pt"@),
        ("MZ"@, "pt"@),
        ("ID"@, "id"@),
        ("IT"@, "it"@),
        ("SM"@, "it"@),
        ("VA"@, "it"@),
        ("JP"@, "ja"@),
        ("KR"@, "ko"@),
        ("RU"@, "ru"@),
        ("BY"@, "ru"@),
        ("KZ"@, "ru"@),
        ("TH"@, "th"@),
        ("TR"@, "tr"@),
        ("VN"@, "vi"@),
        ("PL"@, "pl"@),
        ("CN"@, "zh-cn"@),
        ("SG"@, "zh-cn"@),
        ("TW"@, "zh-tw"@),
        ("HK"@, "zh-tw"@),
        ("MO"@, "zh-tw"@),
        ("UA"@, "uk"@)
    ]
}

/// The usual locale of each country, as `(country code, locale code)`.
pub fn get_country_locale_map() -> (r: Vec<(&'static str, &'static str)>)
    ensures
        r@.map_values(|p: (&'static str, &'static str)| (p.0@, p.1@)) == country_locale_pairs(),
{
    let mut v: Vec<(&'static str, &'static str)> = Vec::new();
    v.push(("US", "en"));
    v.push(("GB", "en"));
    v.push(("CA", "en"));
    v.push(("AU", "en"));
    v.push(("NZ", "en"));
    v.push(("IE", "en"));
    v.push(("ZA", "en"));
    v.push(("SG", "en"));
    v.push(("PH", "en"));
    v.push(("ES", "es"));
    v.push(("MX", "es"));
    v.push(("AR", "es"));
    v.push(("CO", "es"));
    v.push(("CL", "es"));
    v.push(("PE", "es"));
    v.push(("VE", "es"));
    v.push(("EC", "es"));
    v.push(("GT", "es"));
    v.push(("CU", "es"));
    v.push(("BO", "es"));
    v.push(("DO", "es"));
    v.push(("HN", "es"));
    v.push(("PY", "es"));
    v.push(("SV", "es"));
    v.push(("NI", "es"));
    v.push(("CR", "es"));
    v.push(("PA", "es"));
    v.push(("UY", "es"));
    v.push(("FR", "fr"));
    v.push(("BE", "fr"));
    v.push(("CH", "fr"));
    v.push(("LU", "fr"));
    v.push(("MC", "fr"));
    v.push(("DE", "de"));
    v.push(("AT", "de"));
    v.push(("LI", "de"));
    v.push(("PT", "pt"));
    v.push(("BR", "pt"));
    v.push(("AO", "pt"));
    v.push(("MZ", "pt"));
    v.push(("ID", "id"));
    v.push(("IT", "it"));
    v.push(("SM", "it"));
    v.push(("VA", "it"));
    v.push(("JP", "ja"));
    v.push(("KR", "ko"));
    v.push(("RU", "ru"));
    v.push(("BY", "ru"));
    v.push(("KZ", "ru"));
    v.push(("TH", "th"));
    v.push(("TR", "tr"));
    v.push(("VN", "vi"));
    v.push(("PL", "pl"));
    v.push(("CN", "zh-cn"));
    v.push(("SG", "zh-cn"));
    v.push(("TW", "zh-tw"));
    v.push(("HK", "zh-tw"));
    v.push(("MO", "zh-tw"));
    v.push(("UA", "uk"));
    assert(v@.map_values(|p: (&'static str, &'static str)| (p.0@, p.1@)) =~= country_locale_pairs());
    v
}

} // verus!
