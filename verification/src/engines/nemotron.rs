//! Nemotron engine: languages and streaming.

use vstd::prelude::*;

use crate::engines;
use crate::engines::{validate_model_dir, PathFact};
use crate::text;
use crate::{ResultText, TranscriptionResult};

verus! {

/// Chunk size in samples for streaming (560ms at 16kHz).
pub const STREAMING_CHUNK_SAMPLES: usize = 8960;

#[derive(Debug, Clone, Copy, PartialEq, Eq, Default)]
pub struct NemotronModelParams;

/// What is asked of the engine.
#[derive(Debug, Clone, Default)]
pub struct NemotronInferenceParams {
    pub language: Option<String>,
}

/// The languages that the model knows by name.
pub open spec fn language_codes() -> Seq<Seq<char>> {
    seq![
        "ar"@, "ar-AR"@, "bg"@, "bg-BG"@, "cs"@, "cs-CZ"@, "da"@, "da-DK"@, "de"@, "de-DE"@,
        "el"@, "el-GR"@, "en"@, "en-GB"@, "en-US"@, "es"@, "es-ES"@, "es-US"@, "et"@, "et-EE"@,
        "fi"@, "fi-FI"@, "fr"@, "fr-CA"@, "fr-FR"@, "he-IL"@, "hi"@, "hi-IN"@, "hr"@, "hr-HR"@,
        "hu"@, "hu-HU"@, "it"@, "it-IT"@, "ja-JP"@, "ko"@, "ko-KR"@, "lt"@, "lt-LT"@, "lv"@,
        "lv-LV"@, "mt-MT"@, "nb"@, "nb-NO"@, "nl"@, "nl-NL"@, "nn"@, "nn-NO"@, "no"@, "pl"@,
        "pl-PL"@, "pt"@, "pt-BR"@, "pt-PT"@, "ro"@, "ro-RO"@, "ru"@, "ru-RU"@, "sk"@, "sk-SK"@,
        "sl"@, "sl-SI"@, "sv"@, "sv-SE"@, "th-TH"@, "tr"@, "tr-TR"@, "uk"@, "uk-UA"@, "vi-VN"@,
        "zh-CN"@,
    ]
}

/// The language that the model is told, for a language that was asked for.
pub open spec fn target_language(language: Seq<char>) -> Seq<char> {
    let l = text::trimmed(language);
    if l == "he"@ {
        "he-IL"@
    } else if l == "ja"@ {
        "ja-JP"@
    } else if l == "mt"@ {
        "mt-MT"@
    } else if l == "th"@ {
        "th-TH"@
    } else if l == "vi"@ {
        "vi-VN"@
    } else if l == "zh"@ {
        "zh-CN"@
    } else if text::one_of(l, language_codes()) {
        l
    } else {
        "auto"@
    }
}

/// The language that the model is told. One that it does not know is left to
/// the model.
pub fn nemotron_language(language: &str) -> (r: String)
    ensures
        r@ == target_language(language@),
{
    let trimmed = text::trim(language);
    let l = trimmed.as_str();
    if text::same(l, "he") {
        return text::owned("he-IL");
    }
    if text::same(l, "ja") {
        return text::owned("ja-JP");
    }
    if text::same(l, "mt") {
        return text::owned("mt-MT");
    }
    if text::same(l, "th") {
        return text::owned("th-TH");
    }
    if text::same(l, "vi") {
        return text::owned("vi-VN");
    }
    if text::same(l, "zh") {
        return text::owned("zh-CN");
    }
    let codes: [&str; 71] = [
        "ar", "ar-AR", "bg", "bg-BG", "cs", "cs-CZ", "da", "da-DK", "de", "de-DE", "el",
        "el-GR", "en", "en-GB", "en-US", "es", "es-ES", "es-US", "et", "et-EE", "fi", "fi-FI",
        "fr", "fr-CA", "fr-FR", "he-IL", "hi", "hi-IN", "hr", "hr-HR", "hu", "hu-HU", "it",
        "it-IT", "ja-JP", "ko", "ko-KR", "lt", "lt-LT", "lv", "lv-LV", "mt-MT", "nb", "nb-NO",
        "nl", "nl-NL", "nn", "nn-NO", "no", "pl", "pl-PL", "pt", "pt-BR", "pt-PT", "ro",
        "ro-RO", "ru", "ru-RU", "sk", "sk-SK", "sl", "sl-SI", "sv", "sv-SE", "th-TH", "tr",
        "tr-TR", "uk", "uk-UA", "vi-VN", "zh-CN",
    ];
    assert(text::strs(codes@) =~= language_codes());
    if text::is_one_of(l, &codes) {
        trimmed
    } else {
        text::owned("auto")
    }
}

/// A text that names no language, or `auto`, leaves the language to the model.
pub proof fn law_auto_and_blank_are_auto(language: Seq<char>)
    requires
        text::blank(language) || text::trimmed(language) == "auto"@,
    ensures
        target_language(language) == "auto"@,
{
    reveal_strlit("auto");
    reveal_strlit("he");
    reveal_strlit("ja");
    reveal_strlit("mt");
    reveal_strlit("th");
    reveal_strlit("vi");
    reveal_strlit("zh");
    let l = text::trimmed(language);
    if text::one_of(l, language_codes()) {
        lemma_code_lengths();
    }
}

proof fn lemma_code_lengths()
    ensures
        forall|i: int|
            0 <= i < language_codes().len() ==> {
                let n = (#[trigger] language_codes()[i]).len();
                n == 2 || n == 5
            },
{
    reveal_strlit("ar");
    reveal_strlit("ar-AR");
    reveal_strlit("bg");
    reveal_strlit("bg-BG");
    reveal_strlit("cs");
    reveal_strlit("cs-CZ");
    reveal_strlit("da");
    reveal_strlit("da-DK");
    reveal_strlit("de");
    reveal_strlit("de-DE");
    reveal_strlit("el");
    reveal_strlit("el-GR");
    reveal_strlit("en");
    reveal_strlit("en-GB");
    reveal_strlit("en-US");
    reveal_strlit("es");
    reveal_strlit("es-ES");
    reveal_strlit("es-US");
    reveal_strlit("et");
    reveal_strlit("et-EE");
    reveal_strlit("fi");
    reveal_strlit("fi-FI");
    reveal_strlit("fr");
    reveal_strlit("fr-CA");
    reveal_strlit("fr-FR");
    reveal_strlit("he-IL");
    reveal_strlit("hi");
    reveal_strlit("hi-IN");
    reveal_strlit("hr");
    reveal_strlit("hr-HR");
    reveal_strlit("hu");
    reveal_strlit("hu-HU");
    reveal_strlit("it");
    reveal_strlit("it-IT");
    reveal_strlit("ja-JP");
    reveal_strlit("ko");
    reveal_strlit("ko-KR");
    reveal_strlit("lt");
    reveal_strlit("lt-LT");
    reveal_strlit("lv");
    reveal_strlit("lv-LV");
    reveal_strlit("mt-MT");
    reveal_strlit("nb");
    reveal_strlit("nb-NO");
    reveal_strlit("nl");
    reveal_strlit("nl-NL");
    reveal_strlit("nn");
    reveal_strlit("nn-NO");
    reveal_strlit("no");
    reveal_strlit("pl");
    reveal_strlit("pl-PL");
    reveal_strlit("pt");
    reveal_strlit("pt-BR");
    reveal_strlit("pt-PT");
    reveal_strlit("ro");
    reveal_strlit("ro-RO");
    reveal_strlit("ru");
    reveal_strlit("ru-RU");
    reveal_strlit("sk");
    reveal_strlit("sk-SK");
    reveal_strlit("sl");
    reveal_strlit("sl-SI");
    reveal_strlit("sv");
    reveal_strlit("sv-SE");
    reveal_strlit("th-TH");
    reveal_strlit("tr");
    reveal_strlit("tr-TR");
    reveal_strlit("uk");
    reveal_strlit("uk-UA");
    reveal_strlit("vi-VN");
    reveal_strlit("zh-CN");
}

/// The language that a multilingual model is told, if any is asked for.
pub fn language_to_set(multilingual: bool, language: Option<&str>) -> (r: Option<String>)
    ensures
        text::opt_text(r) == (match language {
            Some(l) if multilingual => Some(target_language(l@)),
            _ => None,
        }),
{
    match language {
        Some(language) if multilingual => Some(nemotron_language(language)),
        _ => None,
    }
}

/// Accepts a path that leads to a directory.
pub fn validate_model_path(path: &str, fact: PathFact) -> (r: Result<(), String>)
    ensures
        match r {
            Ok(_) => engines::dir_error(path@, "Nemotron"@, fact) is None,
            Err(e) => engines::dir_error(path@, "Nemotron"@, fact) == Some(e@),
        },
{
    validate_model_dir(path, "Nemotron", fact)
}

/// The transcription made of a transcript.
pub fn plain_result<T>(transcript: &str) -> (r: TranscriptionResult<T>)
    ensures
        r@ == (ResultText::<T> {
            text: text::trimmed(transcript@),
            segments: None,
            words: None,
            language: None,
        }),
{
    TranscriptionResult { text: text::trim(transcript), segments: None, words: None, language: None }
}

/// The model is told a language that it knows, or a short form of one, and
/// otherwise to find out by itself.
pub proof fn law_told_languages(language: Seq<char>)
    ensures
        ({
            let l = text::trimmed(language);
            let told = target_language(language);
            ||| told == "auto"@
            ||| text::one_of(told, language_codes()) && told == l
            ||| l == "he"@ && told == "he-IL"@
            ||| l == "ja"@ && told == "ja-JP"@
            ||| l == "mt"@ && told == "mt-MT"@
            ||| l == "th"@ && told == "th-TH"@
            ||| l == "vi"@ && told == "vi-VN"@
            ||| l == "zh"@ && told == "zh-CN"@
        }),
        target_language(language) == target_language(text::trimmed(language)),
{
    text::lemma_trimmed_ends(language);
    text::lemma_trimmed_fixed(text::trimmed(language));
}

/// The model knows these languages, by these codes, and is told them as they
/// are.
pub proof fn law_known_languages(language: Seq<char>)
    ensures
        ({
            let l = text::trimmed(language);
            (l == "ar"@ || l == "ar-AR"@ || l == "bg"@ || l == "bg-BG"@ || l == "cs"@ ||
                l == "cs-CZ"@ || l == "da"@ || l == "da-DK"@ || l == "de"@ || l == "de-DE"@ ||
                l == "el"@ || l == "el-GR"@ || l == "en"@ || l == "en-GB"@ || l == "en-US"@ ||
                l == "es"@ || l == "es-ES"@ || l == "es-US"@ || l == "et"@ || l == "et-EE"@ ||
                l == "fi"@ || l == "fi-FI"@ || l == "fr"@ || l == "fr-CA"@ || l == "fr-FR"@ ||
                l == "he-IL"@ || l == "hi"@ || l == "hi-IN"@ || l == "hr"@ || l == "hr-HR"@ ||
                l == "hu"@ || l == "hu-HU"@ || l == "it"@ || l == "it-IT"@ || l == "ja-JP"@ ||
                l == "ko"@ || l == "ko-KR"@ || l == "lt"@ || l == "lt-LT"@ || l == "lv"@ ||
                l == "lv-LV"@ || l == "mt-MT"@ || l == "nb"@ || l == "nb-NO"@ || l == "nl"@ ||
                l == "nl-NL"@ || l == "nn"@ || l == "nn-NO"@ || l == "no"@ || l == "pl"@ ||
                l == "pl-PL"@ || l == "pt"@ || l == "pt-BR"@ || l == "pt-PT"@ || l == "ro"@ ||
                l == "ro-RO"@ || l == "ru"@ || l == "ru-RU"@ || l == "sk"@ || l == "sk-SK"@ ||
                l == "sl"@ || l == "sl-SI"@ || l == "sv"@ || l == "sv-SE"@ || l == "th-TH"@ ||
                l == "tr"@ || l == "tr-TR"@ || l == "uk"@ || l == "uk-UA"@ || l == "vi-VN"@ ||
                l == "zh-CN"@) && l
                != "he"@ && l != "ja"@ && l != "mt"@ && l != "th"@ && l != "vi"@ && l != "zh"@
                ==> target_language(language) == l
        }),
{
    let codes = language_codes();
    assert(codes[0] == "ar"@);
    assert(codes[1] == "ar-AR"@);
    assert(codes[2] == "bg"@);
    assert(codes[3] == "bg-BG"@);
    assert(codes[4] == "cs"@);
    assert(codes[5] == "cs-CZ"@);
    assert(codes[6] == "da"@);
    assert(codes[7] == "da-DK"@);
    assert(codes[8] == "de"@);
    assert(codes[9] == "de-DE"@);
    assert(codes[10] == "el"@);
    assert(codes[11] == "el-GR"@);
    assert(codes[12] == "en"@);
    assert(codes[13] == "en-GB"@);
    assert(codes[14] == "en-US"@);
    assert(codes[15] == "es"@);
    assert(codes[16] == "es-ES"@);
    assert(codes[17] == "es-US"@);
    assert(codes[18] == "et"@);
    assert(codes[19] == "et-EE"@);
    assert(codes[20] == "fi"@);
    assert(codes[21] == "fi-FI"@);
    assert(codes[22] == "fr"@);
    assert(codes[23] == "fr-CA"@);
    assert(codes[24] == "fr-FR"@);
    assert(codes[25] == "he-IL"@);
    assert(codes[26] == "hi"@);
    assert(codes[27] == "hi-IN"@);
    assert(codes[28] == "hr"@);
    assert(codes[29] == "hr-HR"@);
    assert(codes[30] == "hu"@);
    assert(codes[31] == "hu-HU"@);
    assert(codes[32] == "it"@);
    assert(codes[33] == "it-IT"@);
    assert(codes[34] == "ja-JP"@);
    assert(codes[35] == "ko"@);
    assert(codes[36] == "ko-KR"@);
    assert(codes[37] == "lt"@);
    assert(codes[38] == "lt-LT"@);
    assert(codes[39] == "lv"@);
    assert(codes[40] == "lv-LV"@);
    assert(codes[41] == "mt-MT"@);
    assert(codes[42] == "nb"@);
    assert(codes[43] == "nb-NO"@);
    assert(codes[44] == "nl"@);
    assert(codes[45] == "nl-NL"@);
    assert(codes[46] == "nn"@);
    assert(codes[47] == "nn-NO"@);
    assert(codes[48] == "no"@);
    assert(codes[49] == "pl"@);
    assert(codes[50] == "pl-PL"@);
    assert(codes[51] == "pt"@);
    assert(codes[52] == "pt-BR"@);
    assert(codes[53] == "pt-PT"@);
    assert(codes[54] == "ro"@);
    assert(codes[55] == "ro-RO"@);
    assert(codes[56] == "ru"@);
    assert(codes[57] == "ru-RU"@);
    assert(codes[58] == "sk"@);
    assert(codes[59] == "sk-SK"@);
    assert(codes[60] == "sl"@);
    assert(codes[61] == "sl-SI"@);
    assert(codes[62] == "sv"@);
    assert(codes[63] == "sv-SE"@);
    assert(codes[64] == "th-TH"@);
    assert(codes[65] == "tr"@);
    assert(codes[66] == "tr-TR"@);
    assert(codes[67] == "uk"@);
    assert(codes[68] == "uk-UA"@);
    assert(codes[69] == "vi-VN"@);
    assert(codes[70] == "zh-CN"@);
}

} // verus!
