use vstd::prelude::*;
use vstd::string::StringExecFns;

verus! {

/// Why a read from the session buffer, or the recognition of a block, failed.
#[derive(Clone, Copy, Debug, PartialEq, Eq, Structural)]
pub enum ReadFault {
    /// The bytes asked for do not all lie inside the buffer.
    UnexpectedEof,
    /// A block does not begin with the block sentinel.
    InvalidMark,
    /// The upper byte of a block's type is not zero.
    InvalidBlockType,
    /// A block's payload reaches past the bound it has to stay within.
    BlockTooLarge,
}

/// Why the obfuscation of a session file could not be removed.
#[derive(Clone, Copy, Debug, PartialEq, Eq, Structural)]
pub enum DecryptFault {
    /// The file is shorter than its unencrypted header.
    TooSmall,
    /// The header names an obfuscation scheme that is not known.
    UnknownXorType,
}

/// Why no Pro Tools version could be made out.
#[derive(Clone, Copy, Debug, PartialEq, Eq, Structural)]
pub enum VersionFault {
    /// The block found where the version block belongs carries this content type.
    UnknownBlock(u16),
    /// No block stands where the version block belongs and no fallback byte is set.
    Missing,
}

/// The errors of the session reader.
#[derive(Clone, Copy, Debug, PartialEq, Eq, Structural)]
pub enum PtError {
    /// File too small, or obfuscation scheme not recognised.
    Decrypt(DecryptFault),
    /// The decrypted content lacks the expected sentinel: not a Pro Tools file.
    BitCode,
    /// The endianness flag is neither 0 nor 1.
    Endianness,
    /// The version block is missing or cannot be read by any fallback.
    Version(VersionFault),
    /// A required top-level block is missing.
    Parse,
    /// A read inside the buffer failed.
    Io(ReadFault),
}

/// The text of one hexadecimal digit.
pub open spec fn hex_digit_text(digit: nat) -> Seq<char> {
    if digit == 0 {
        "0"@
    } else if digit == 1 {
        "1"@
    } else if digit == 2 {
        "2"@
    } else if digit == 3 {
        "3"@
    } else if digit == 4 {
        "4"@
    } else if digit == 5 {
        "5"@
    } else if digit == 6 {
        "6"@
    } else if digit == 7 {
        "7"@
    } else if digit == 8 {
        "8"@
    } else if digit == 9 {
        "9"@
    } else if digit == 10 {
        "a"@
    } else if digit == 11 {
        "b"@
    } else if digit == 12 {
        "c"@
    } else if digit == 13 {
        "d"@
    } else if digit == 14 {
        "e"@
    } else {
        "f"@
    }
}

/// The hexadecimal digits of a number, without leading zeros.
pub open spec fn hex_digits(n: nat) -> Seq<char>
    decreases n,
{
    if n < 16 {
        hex_digit_text(n)
    } else {
        hex_digits(n / 16) + hex_digit_text(n % 16)
    }
}

/// A content type as it stands in a message: `0x` and at least two hexadecimal digits.
pub open spec fn tag_text(tag: u16) -> Seq<char> {
    if tag < 16 {
        "0x0"@ + hex_digits(tag as nat)
    } else {
        "0x"@ + hex_digits(tag as nat)
    }
}

impl ReadFault {
    /// What the fault says in a message.
    pub open spec fn text(self) -> Seq<char> {
        match self {
            ReadFault::UnexpectedEof => "failed to fill whole buffer"@,
            ReadFault::InvalidMark => "First byte of block must be ZMARK"@,
            ReadFault::InvalidBlockType => "Invalid Block Type"@,
            ReadFault::BlockTooLarge => "Block is too large"@,
        }
    }

    /// What the fault says in a message.
    pub fn message(&self) -> (s: String)
        ensures
            s@ == self.text(),
    {
        match self {
            ReadFault::UnexpectedEof => "failed to fill whole buffer".to_owned(),
            ReadFault::InvalidMark => "First byte of block must be ZMARK".to_owned(),
            ReadFault::InvalidBlockType => "Invalid Block Type".to_owned(),
            ReadFault::BlockTooLarge => "Block is too large".to_owned(),
        }
    }
}

impl DecryptFault {
    /// What the fault says in a message.
    pub open spec fn text(self) -> Seq<char> {
        match self {
            DecryptFault::TooSmall => "File is too small"@,
            DecryptFault::UnknownXorType => "PT xor type not recognized"@,
        }
    }

    /// What the fault says in a message.
    pub fn message(&self) -> (s: String)
        ensures
            s@ == self.text(),
    {
        match self {
            DecryptFault::TooSmall => "File is too small".to_owned(),
            DecryptFault::UnknownXorType => "PT xor type not recognized".to_owned(),
        }
    }
}

/// Appends one hexadecimal digit.
fn push_hex_digit(s: &mut String, digit: u16)
    requires
        digit < 16,
    ensures
        final(s)@ == old(s)@ + hex_digit_text(digit as nat),
{
    let text = if digit == 0 {
        "0"
    } else if digit == 1 {
        "1"
    } else if digit == 2 {
        "2"
    } else if digit == 3 {
        "3"
    } else if digit == 4 {
        "4"
    } else if digit == 5 {
        "5"
    } else if digit == 6 {
        "6"
    } else if digit == 7 {
        "7"
    } else if digit == 8 {
        "8"
    } else if digit == 9 {
        "9"
    } else if digit == 10 {
        "a"
    } else if digit == 11 {
        "b"
    } else if digit == 12 {
        "c"
    } else if digit == 13 {
        "d"
    } else if digit == 14 {
        "e"
    } else {
        "f"
    };
    s.append(text);
}

/// Appends the hexadecimal digits of a number.
fn push_hex_digits(s: &mut String, n: u16)
    ensures
        final(s)@ == old(s)@ + hex_digits(n as nat),
    decreases n,
{
    if n >= 16 {
        push_hex_digits(s, n / 16);
    }
    push_hex_digit(s, n % 16);
}

impl VersionFault {
    /// What the fault says in a message.
    pub open spec fn text(self) -> Seq<char> {
        match self {
            VersionFault::UnknownBlock(tag) => "Could not parse version block type: "@ + tag_text(
                tag,
            ),
            VersionFault::Missing => "Failed to parse version block"@,
        }
    }

    /// What the fault says in a message.
    pub fn message(&self) -> (s: String)
        ensures
            s@ == self.text(),
    {
        match self {
            VersionFault::UnknownBlock(tag) => {
                let mut s = "Could not parse version block type: ".to_owned();
                if *tag < 16 {
                    s.append("0x0");
                } else {
                    s.append("0x");
                }
                push_hex_digits(&mut s, *tag);
                s
            },
            VersionFault::Missing => "Failed to parse version block".to_owned(),
        }
    }
}

impl PtError {
    /// What the error says in a message.
    pub open spec fn text(self) -> Seq<char> {
        match self {
            PtError::Decrypt(fault) => "Could not decrypt file: "@ + fault.text(),
            PtError::BitCode => "Could not verify BitCode. Not a Pro Tools file."@,
            PtError::Endianness => "Could not parse the endianness. Expected 0 or 1"@,
            PtError::Version(fault) => "Pro Tools version not supported. Only support 5 - 12. "@
                + fault.text(),
            PtError::Parse => "Error parsing blocks"@,
            PtError::Io(fault) => "IO Error: "@ + fault.text(),
        }
    }

    /// What the error says in a message.
    pub fn message(&self) -> (s: String)
        ensures
            s@ == self.text(),
    {
        match self {
            PtError::Decrypt(fault) => "Could not decrypt file: ".to_owned().concat(
                fault.message().as_str(),
            ),
            PtError::BitCode => "Could not verify BitCode. Not a Pro Tools file.".to_owned(),
            PtError::Endianness => "Could not parse the endianness. Expected 0 or 1".to_owned(),
            PtError::Version(fault) => "Pro Tools version not supported. Only support 5 - 12. "
                .to_owned().concat(fault.message().as_str()),
            PtError::Parse => "Error parsing blocks".to_owned(),
            PtError::Io(fault) => "IO Error: ".to_owned().concat(fault.message().as_str()),
        }
    }
}

} // verus!
