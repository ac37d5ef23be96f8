//! Configuration-file palettes: each entry is a character with a foreground
//! color and an optional background color.
//!
//! The configuration file itself is read and decoded by the surrounding
//! layer; this module validates and parses the plain string entries it
//! extracts.

use vstd::prelude::*;
use crate::colour::Rgb24;
use crate::parse_colour::{hex_rgb24_of, parse_hex_rgb24};

verus! {

/// One palette entry of the configuration file.
#[derive(Clone, Copy, Debug, PartialEq, Eq, Structural)]
pub struct PaletteEntry {
    pub character: char,
    pub foreground: Rgb24,
    pub background: Option<Rgb24>,
}

/// Why a configuration palette was rejected.
#[derive(Clone, Copy, Debug, PartialEq, Eq, Structural)]
pub enum ConfigError {
    /// An entry does not have two or three parts.
    BadArity,
    /// An entry's first part is not a single character.
    BadCharacter,
    /// An entry's foreground part is not a `#RRGGBB` color.
    BadForeground,
    /// An entry's background part is not a `#RRGGBB` color.
    BadBackground,
}

/// The entry a list of string parts denotes, or the error it deserves:
/// a single character, a foreground color, and optionally a background color.
pub open spec fn entry_of(parts: Seq<String>) -> Result<PaletteEntry, ConfigError> {
    if parts.len() < 2 || parts.len() > 3 {
        Err(ConfigError::BadArity)
    } else if parts[0]@.len() != 1 {
        Err(ConfigError::BadCharacter)
    } else if hex_rgb24_of(parts[1]@) is None {
        Err(ConfigError::BadForeground)
    } else if parts.len() == 3 && hex_rgb24_of(parts[2]@) is None {
        Err(ConfigError::BadBackground)
    } else {
        Ok(
            PaletteEntry {
                character: parts[0]@[0],
                foreground: hex_rgb24_of(parts[1]@).unwrap(),
                background: if parts.len() == 3 {
                    Some(hex_rgb24_of(parts[2]@).unwrap())
                } else {
                    None
                },
            },
        )
    }
}

/// Parse one palette entry from its string parts.
pub fn parse_palette_entry(parts: &Vec<String>) -> (r: Result<PaletteEntry, ConfigError>)
    ensures
        r == entry_of(parts@),
{
    if parts.len() < 2 || parts.len() > 3 {
        return Err(ConfigError::BadArity);
    }
    let character_str = parts[0].as_str();
    if character_str.unicode_len() != 1 {
        return Err(ConfigError::BadCharacter);
    }
    let character = character_str.get_char(0);
    let foreground = match parse_hex_rgb24(parts[1].as_str()) {
        Ok(c) => c,
        Err(_) => {
            return Err(ConfigError::BadForeground);
        },
    };
    let background = if parts.len() == 3 {
        match parse_hex_rgb24(parts[2].as_str()) {
            Ok(c) => Some(c),
            Err(_) => {
                return Err(ConfigError::BadBackground);
            },
        }
    } else {
        None
    };
    Ok(PaletteEntry { character, foreground, background })
}

/// Every entry's parts denote a palette entry.
pub open spec fn entries_parse(entries: Seq<Vec<String>>) -> bool {
    forall|i: int| 0 <= i < entries.len() ==> entry_of((#[trigger] entries[i])@) is Ok
}

/// A configuration: its palette entries, in file order.
#[derive(Debug)]
pub struct Config {
    palette: Vec<PaletteEntry>,
}

impl Config {
    pub closed spec fn entries(self) -> Seq<PaletteEntry> {
        self.palette@
    }

    /// Parse a configuration from the string parts of each palette entry.
    /// The first malformed entry's error is reported.
    pub fn parse(entries: &Vec<Vec<String>>) -> (r: Result<Config, ConfigError>)
        ensures
            r is Ok <==> entries_parse(entries@),
            r is Ok ==> {
                &&& r->Ok_0.entries().len() == entries@.len()
                &&& forall|i: int|
                    0 <= i < entries@.len() ==> Ok::<PaletteEntry, ConfigError>(
                        #[trigger] r->Ok_0.entries()[i],
                    ) == entry_of(entries@[i]@)
            },
            r is Err ==> exists|i: int|
                0 <= i < entries@.len() && entry_of((#[trigger] entries@[i])@) == Err::<
                    PaletteEntry,
                    ConfigError,
                >(r->Err_0),
    {
        let mut palette: Vec<PaletteEntry> = Vec::new();
        let mut i: usize = 0;
        while i < entries.len()
            invariant
                i <= entries@.len(),
                palette@.len() == i,
                forall|k: int| 0 <= k < i ==> entry_of((#[trigger] entries@[k])@) is Ok,
                forall|k: int|
                    0 <= k < i ==> Ok::<PaletteEntry, ConfigError>(#[trigger] palette@[k])
                        == entry_of(entries@[k]@),
            decreases entries@.len() - i,
        {
            match parse_palette_entry(&entries[i]) {
                Ok(e) => {
                    palette.push(e);
                },
                Err(err) => {
                    proof {
                        assert(entry_of((entries@[i as int])@) == Err::<PaletteEntry, ConfigError>(
                            err,
                        ));
                    }
                    return Err(err);
                },
            }
            i = i + 1;
        }
        Ok(Config { palette })
    }

    /// The parsed palette entries.
    pub fn palette(&self) -> (r: &Vec<PaletteEntry>)
        ensures
            r@ == self.entries(),
    {
        &self.palette
    }
}

} // verus!
