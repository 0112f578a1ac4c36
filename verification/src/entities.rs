//! The records that the analysis works on.

use vstd::prelude::*;
use vstd::string::*;

use crate::text::same_text;

verus! {

/// One key/value pair read from a translation file, tagged with the path of
/// that file. Two records duplicate each other when their `translations`
/// texts are equal; the key plays no part in that.
#[derive(Clone, Debug)]
pub struct Translation {
    /// Path of the file the pair was read from.
    pub path: String,
    /// The value, in its serialised form.
    pub translations: String,
    /// The key under which the value stands in the file.
    pub key: String,
}

/// A record as the contracts see it.
pub struct TranslationView {
    pub path: Seq<char>,
    pub translations: Seq<char>,
    pub key: Seq<char>,
}

impl View for Translation {
    type V = TranslationView;

    open spec fn view(&self) -> TranslationView {
        TranslationView { path: self.path@, translations: self.translations@, key: self.key@ }
    }
}

impl DeepView for Translation {
    type V = TranslationView;

    open spec fn deep_view(&self) -> TranslationView {
        self@
    }
}

/// The two kinds of package that a source tree holds.
#[derive(Debug, Clone, Copy, PartialEq, Eq, Structural)]
pub enum PackageType {
    Apps,
    Modules,
}

impl PackageType {
    /// The directory name that stands for this kind in a package path.
    pub open spec fn segment(self) -> Seq<char> {
        match self {
            PackageType::Apps => "apps"@,
            PackageType::Modules => "modules"@,
        }
    }

    /// What `from_str` answers for `s`.
    pub open spec fn parsed(s: Seq<char>) -> Result<PackageType, Seq<char>> {
        if s == "apps"@ {
            Ok(PackageType::Apps)
        } else if s == "modules"@ {
            Ok(PackageType::Modules)
        } else {
            Err("Invalid package type: "@ + s)
        }
    }

    /// Reads a package kind from its directory name: `apps` or `modules`.
    /// Any other text is refused with a message that quotes it.
    pub fn from_str(s: &str) -> (kind: Result<PackageType, String>)
        ensures
            match kind {
                Ok(k) => Self::parsed(s@) == Ok::<PackageType, Seq<char>>(k),
                Err(message) => Self::parsed(s@) == Err::<PackageType, Seq<char>>(message@),
            },
    {
        if same_text(s, "apps") {
            Ok(PackageType::Apps)
        } else if same_text(s, "modules") {
            Ok(PackageType::Modules)
        } else {
            Err(String::from_str("Invalid package type: ").concat(s))
        }
    }
}

} // verus!
