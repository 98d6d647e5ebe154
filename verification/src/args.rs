//! The command line: an optional path to the game, and an optional choice of
//! languages written as `-lang:0en,1jp`, where `0` marks the text language
//! and `1` the voice language.

use crate::language_patch::Kind;
use crate::wire::{same_bytes, skip};
use vstd::prelude::*;
use vstd::slice::slice_subrange;
use vstd::string::StringSliceAdditionalSpecFns;
use vstd::utf8::encode_utf8;

verus! {

/// The byte `-`, which starts an option.
pub const DASH: u8 = 45;

/// The byte `,`, which parts the two languages.
pub const COMMA: u8 = 44;

/// The byte `0`, which marks the text language.
pub const TEXT_MARK: u8 = 48;

/// The byte `1`, which marks the voice language.
pub const VOICE_MARK: u8 = 49;

/// Why a command line was refused.
#[derive(Clone, Copy, Debug, PartialEq, Eq, Structural)]
pub enum ArgError {
    /// The argument at `index` starts with `-` and is no language option.
    UnknownArgument { index: usize },
    /// A language option does not start with `-lang:`.
    MissingPrefix,
    /// A language option does not hold exactly two parts.
    WrongPartCount,
    /// A part is shorter than a mark and a language code.
    PartTooShort,
    /// A language is none of `cn`, `en`, `kr`, `jp`.
    InvalidLanguage,
    /// A part starts with neither `0` nor `1`.
    InvalidKind,
    /// No part gives the text language.
    MissingText,
    /// No part gives the voice language.
    MissingVoice,
}

impl ArgError {
    /// The failure in words. Which argument is unknown is in the error
    /// itself.
    pub fn message(&self) -> (text: &'static str)
        ensures
            text == match *self {
                ArgError::UnknownArgument { .. } => "Unknown argument",
                ArgError::MissingPrefix => "Argument must start with '-lang:'",
                ArgError::WrongPartCount => "Expected format: -lang:0en,1en",
                ArgError::PartTooShort => "Invalid language format",
                ArgError::InvalidLanguage => "Invalid language. Must be cn, en, kr, or jp",
                ArgError::InvalidKind => "Language type must be 0 (text) or 1 (voice)",
                ArgError::MissingText => "Missing text language (0)",
                ArgError::MissingVoice => "Missing voice language (1)",
            },
    {
        match self {
            ArgError::UnknownArgument { .. } => "Unknown argument",
            ArgError::MissingPrefix => "Argument must start with '-lang:'",
            ArgError::WrongPartCount => "Expected format: -lang:0en,1en",
            ArgError::PartTooShort => "Invalid language format",
            ArgError::InvalidLanguage => "Invalid language. Must be cn, en, kr, or jp",
            ArgError::InvalidKind => "Language type must be 0 (text) or 1 (voice)",
            ArgError::MissingText => "Missing text language (0)",
            ArgError::MissingVoice => "Missing voice language (1)",
        }
    }
}

/// The languages that were chosen, each one of `cn`, `en`, `kr`, `jp`.
#[derive(Clone, Copy, Debug, PartialEq, Eq)]
pub struct Languages {
    pub text: &'static str,
    pub voice: &'static str,
}

/// What the command line says.
#[derive(Clone, Debug, PartialEq, Eq)]
pub struct Args {
    pub game_path: Option<String>,
    pub languages: Option<Languages>,
}

/// What an `Args` holds: the path as text, the languages as bytes.
pub struct ArgsView {
    pub game_path: Option<Seq<char>>,
    pub languages: Option<(Seq<u8>, Seq<u8>)>,
}

impl View for Args {
    type V = ArgsView;

    open spec fn view(&self) -> ArgsView {
        ArgsView {
            game_path: match self.game_path {
                Some(path) => Some(path@),
                None => None,
            },
            languages: match self.languages {
                Some(chosen) => Some((chosen.text.spec_bytes(), chosen.voice.spec_bytes())),
                None => None,
            },
        }
    }
}

/// Whether `code` is one of the four language codes.
pub open spec fn is_language(code: Seq<u8>) -> bool {
    ||| code == "cn".spec_bytes()
    ||| code == "en".spec_bytes()
    ||| code == "kr".spec_bytes()
    ||| code == "jp".spec_bytes()
}

/// Whether `s` starts with `prefix`.
pub open spec fn starts_with(s: Seq<u8>, prefix: Seq<u8>) -> bool {
    prefix.len() <= s.len() && s.subrange(0, prefix.len() as int) == prefix
}

/// Whether `s` has a comma at `c` and nowhere else.
pub open spec fn only_comma(s: Seq<u8>, c: int) -> bool {
    &&& 0 <= c < s.len()
    &&& s[c] == 44
    &&& forall|k: int| 0 <= k < s.len() && k != c ==> s[k] != 44
}

/// What one part of a language option says: the kind of language, and the
/// language. The language is looked at before the mark.
pub open spec fn part_parse(part: Seq<u8>) -> Result<(Kind, Seq<u8>), ArgError> {
    if part.len() < 3 {
        Err(ArgError::PartTooShort)
    } else if !is_language(part.skip(1)) {
        Err(ArgError::InvalidLanguage)
    } else if part[0] == 48 {
        Ok((Kind::Text, part.skip(1)))
    } else if part[0] == 49 {
        Ok((Kind::Voice, part.skip(1)))
    } else {
        Err(ArgError::InvalidKind)
    }
}

/// What a language option says: the text language and the voice language.
/// The parts are looked at in their order; of two parts of one kind the
/// later counts.
pub open spec fn languages_parse(arg: Seq<u8>) -> Result<(Seq<u8>, Seq<u8>), ArgError> {
    if !starts_with(arg, "-lang:".spec_bytes()) {
        Err(ArgError::MissingPrefix)
    } else {
        let parts = arg.skip("-lang:".spec_bytes().len() as int);
        if !exists|c: int| only_comma(parts, c) {
            Err(ArgError::WrongPartCount)
        } else {
            let c = choose|c: int| only_comma(parts, c);
            match part_parse(parts.take(c)) {
                Err(e) => Err(e),
                Ok((first_kind, first)) => match part_parse(parts.skip(c + 1)) {
                    Err(e) => Err(e),
                    Ok((second_kind, second)) => if first_kind == second_kind {
                        if first_kind == Kind::Text {
                            Err(ArgError::MissingVoice)
                        } else {
                            Err(ArgError::MissingText)
                        }
                    } else if first_kind == Kind::Text {
                        Ok((first, second))
                    } else {
                        Ok((second, first))
                    },
                },
            }
        }
    }
}

/// What the arguments from `from` on add to `so_far`. An argument that
/// starts with `-` must be a language option, and of several the last
/// counts; of the others the first is the path to the game.
pub open spec fn args_parse(args: Seq<Seq<char>>, from: int, so_far: ArgsView) -> Result<
    ArgsView,
    ArgError,
>
    decreases args.len() - from,
{
    if from < 0 || from >= args.len() {
        Ok(so_far)
    } else {
        let arg = encode_utf8(args[from]);
        if arg.len() >= 1 && arg[0] == 45 {
            if starts_with(arg, "-lang:".spec_bytes()) {
                match languages_parse(arg) {
                    Err(e) => Err(e),
                    Ok(chosen) => args_parse(
                        args,
                        from + 1,
                        ArgsView { game_path: so_far.game_path, languages: Some(chosen) },
                    ),
                }
            } else {
                Err(ArgError::UnknownArgument { index: from as usize })
            }
        } else if so_far.game_path is None {
            args_parse(
                args,
                from + 1,
                ArgsView { game_path: Some(args[from]), languages: so_far.languages },
            )
        } else {
            args_parse(args, from + 1, so_far)
        }
    }
}

/// The texts of a run of arguments.
pub open spec fn arg_views(args: Seq<String>) -> Seq<Seq<char>> {
    Seq::new(args.len(), |i: int| args[i]@)
}

/// The language code that `code` spells, as a constant.
fn language_of(code: &[u8]) -> (r: Option<&'static str>)
    ensures
        match r {
            Some(language) => is_language(code@) && language.spec_bytes() == code@,
            None => !is_language(code@),
        },
{
    if same_bytes(code, "cn".as_bytes()) {
        Some("cn")
    } else if same_bytes(code, "en".as_bytes()) {
        Some("en")
    } else if same_bytes(code, "kr".as_bytes()) {
        Some("kr")
    } else if same_bytes(code, "jp".as_bytes()) {
        Some("jp")
    } else {
        None
    }
}

/// Whether `data` starts with `prefix`.
fn has_prefix(data: &[u8], prefix: &[u8]) -> (b: bool)
    ensures
        b == starts_with(data@, prefix@),
{
    prefix.len() <= data.len() && same_bytes(slice_subrange(data, 0, prefix.len()), prefix)
}

/// The place of the one comma of `data`; nothing where it has none or
/// several.
fn find_only_comma(data: &[u8]) -> (r: Option<usize>)
    ensures
        match r {
            Some(c) => only_comma(data@, c as int),
            None => !exists|c: int| only_comma(data@, c),
        },
{
    let mut found: Option<usize> = None;
    let mut i: usize = 0;
    while i < data.len()
        invariant
            i <= data@.len(),
            match found {
                Some(c) => c < i && data@[c as int] == 44 && forall|k: int|
                    0 <= k < i && k != c ==> data@[k] != 44,
                None => forall|k: int| 0 <= k < i ==> data@[k] != 44,
            },
        decreases data@.len() - i,
    {
        if data[i] == COMMA {
            match found {
                Some(c) => {
                    assert forall|w: int| !only_comma(data@, w) by {
                        if only_comma(data@, w) {
                            assert(w == c || data@[c as int] != 44);
                            assert(w == i || data@[i as int] != 44);
                        }
                    }
                    return None;
                },
                None => {
                    found = Some(i);
                },
            }
        }
        i += 1;
    }
    proof {
        if found is None {
            assert forall|w: int| !only_comma(data@, w) by {}
        }
    }
    found
}

/// What one part of a language option says.
fn read_part(part: &[u8]) -> (r: Result<(Kind, &'static str), ArgError>)
    ensures
        match part_parse(part@) {
            Ok((kind, language)) => r matches Ok((k, l)) && k == kind && l.spec_bytes()
                == language,
            Err(e) => r is Err && r->Err_0 == e,
        },
{
    if part.len() < 3 {
        return Err(ArgError::PartTooShort);
    }
    let language = match language_of(skip(part, 1)) {
        Some(language) => language,
        None => {
            return Err(ArgError::InvalidLanguage);
        },
    };
    let mark = part[0];
    if mark == TEXT_MARK {
        Ok((Kind::Text, language))
    } else if mark == VOICE_MARK {
        Ok((Kind::Voice, language))
    } else {
        Err(ArgError::InvalidKind)
    }
}

impl Languages {
    /// Whether both languages are among the four language codes.
    pub open spec fn wf(&self) -> bool {
        is_language(self.text.spec_bytes()) && is_language(self.voice.spec_bytes())
    }

    /// Reads a language option.
    pub fn from_arg(arg: &str) -> (r: Result<Languages, ArgError>)
        ensures
            match languages_parse(arg.spec_bytes()) {
                Ok((text, voice)) => r is Ok && r->Ok_0.text.spec_bytes() == text
                    && r->Ok_0.voice.spec_bytes() == voice && r->Ok_0.wf(),
                Err(e) => r is Err && r->Err_0 == e,
            },
    {
        let bytes = arg.as_bytes();
        let prefix = "-lang:".as_bytes();
        if !has_prefix(bytes, prefix) {
            return Err(ArgError::MissingPrefix);
        }
        let parts = skip(bytes, prefix.len());
        let parts_len: usize = parts.len();
        let comma = match find_only_comma(parts) {
            Some(c) => c,
            None => {
                return Err(ArgError::WrongPartCount);
            },
        };
        proof {
            let chosen = choose|c: int| only_comma(parts@, c);
            assert(only_comma(parts@, comma as int));
            assert(chosen == comma);
            assert(parts@.take(comma as int) =~= parts@.subrange(0, comma as int));
            assert(parts@.skip(comma + 1) =~= parts@.subrange(comma + 1, parts@.len() as int));
        }
        let (first_kind, first) = match read_part(slice_subrange(parts, 0, comma)) {
            Ok(part) => part,
            Err(e) => {
                return Err(e);
            },
        };
        let (second_kind, second) = match read_part(
            slice_subrange(parts, comma + 1, parts_len),
        ) {
            Ok(part) => part,
            Err(e) => {
                return Err(e);
            },
        };
        match (first_kind, second_kind) {
            (Kind::Text, Kind::Voice) => Ok(Languages { text: first, voice: second }),
            (Kind::Voice, Kind::Text) => Ok(Languages { text: second, voice: first }),
            (Kind::Text, Kind::Text) => Err(ArgError::MissingVoice),
            (Kind::Voice, Kind::Voice) => Err(ArgError::MissingText),
        }
    }
}

impl Args {
    /// Checks that `lang` is one of the four language codes, and gives it
    /// back as a constant.
    pub fn validate_language(lang: &str) -> (r: Result<&'static str, ArgError>)
        ensures
            match r {
                Ok(language) => is_language(lang.spec_bytes()) && language.spec_bytes()
                    == lang.spec_bytes(),
                Err(e) => !is_language(lang.spec_bytes()) && e == ArgError::InvalidLanguage,
            },
    {
        match language_of(lang.as_bytes()) {
            Some(language) => Ok(language),
            None => Err(ArgError::InvalidLanguage),
        }
    }

    /// Reads the arguments that follow the program's name.
    pub fn parse(args: &[String]) -> (r: Result<Args, ArgError>)
        ensures
            match args_parse(arg_views(args@), 0, ArgsView { game_path: None, languages: None }) {
                Ok(parsed) => r is Ok && r->Ok_0@ == parsed,
                Err(e) => r is Err && r->Err_0 == e,
            },
    {
        let ghost views = arg_views(args@);
        let ghost start = ArgsView { game_path: None, languages: None };
        let mut parsed = Args { game_path: None, languages: None };
        let mut i: usize = 0;
        while i < args.len()
            invariant
                i <= args@.len(),
                views == arg_views(args@),
                start == (ArgsView { game_path: None, languages: None }),
                args_parse(views, 0, start) == args_parse(views, i as int, parsed@),
            decreases args@.len() - i,
        {
            let arg = args[i].as_str();
            let bytes = arg.as_bytes();
            assert(bytes@ == encode_utf8(views[i as int]));
            if bytes.len() >= 1 && bytes[0] == DASH {
                if has_prefix(bytes, "-lang:".as_bytes()) {
                    match Languages::from_arg(arg) {
                        Ok(chosen) => {
                            parsed.languages = Some(chosen);
                        },
                        Err(e) => {
                            return Err(e);
                        },
                    }
                } else {
                    return Err(ArgError::UnknownArgument { index: i });
                }
            } else if parsed.game_path.is_none() {
                parsed.game_path = Some(args[i].clone());
            }
            i += 1;
        }
        Ok(parsed)
    }

    /// The text language and the voice language, where the command line
    /// chose them.
    pub fn chosen_languages(&self) -> (r: Option<(&'static str, &'static str)>)
        ensures
            r == match self.languages {
                Some(chosen) => Some((chosen.text, chosen.voice)),
                None => None,
            },
    {
        match &self.languages {
            Some(chosen) => Some((chosen.text, chosen.voice)),
            None => None,
        }
    }
}

} // verus!
