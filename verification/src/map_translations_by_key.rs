//! The index of all records by their value.

use vstd::prelude::*;
use vstd::string::*;

use crate::entities::{Translation, TranslationView};
use crate::index::{first_keys, grouped_by, KeyOf, TranslationIndex};

verus! {

/// A record's value: the key of the value index.
pub open spec fn by_value() -> KeyOf {
    |t: TranslationView| t.translations
}

/// The value index of `records`: under each value that occurs, the records
/// that hold it, in the order of `records`.
pub open spec fn value_index(records: Seq<TranslationView>) -> Map<Seq<char>, Seq<TranslationView>> {
    grouped_by(records, by_value())
}

/// Files every record under its value. The index answers, for a value, which
/// records share it; its keys stand in the order in which the values first
/// occur.
pub fn map_translations_by_translation<'a>(translation: &'a [Translation]) -> (index: TranslationIndex<'a>)
    ensures
        index@ == value_index(translation.deep_view()),
        index.spec_keys() == first_keys(translation.deep_view(), by_value()),
{
    let mut keys: Vec<String> = Vec::new();
    let mut i: usize = 0;
    while i < translation.len()
        invariant
            i <= translation.len(),
            keys.len() == i,
            forall|j: int| 0 <= j < i ==> (#[trigger] keys[j])@ == by_value()(translation[j]@),
        decreases translation.len() - i,
    {
        keys.push(translation[i].translations.clone());
        i += 1;
    }
    TranslationIndex::group_by_keys(translation, keys, Ghost(by_value()))
}

} // verus!
