//! The records of one package.

use vstd::prelude::*;
use vstd::string::*;

use crate::entities::Translation;
use crate::index::keyed;
use crate::map_translations_by_project::{by_package, get_package_path};

verus! {

/// Picks the records whose file lies in the package `project_path`, and
/// keeps their order.
pub fn get_translations_for_project<'a>(project_path: &str, translation: &'a [Translation]) -> (translations: Vec<
    &'a Translation,
>)
    ensures
        translations.deep_view() == translation.deep_view().filter(keyed(by_package(), project_path@)),
{
    let wanted = String::from_str(project_path);
    let ghost all = translation.deep_view();
    let ghost owned = keyed(by_package(), project_path@);
    let mut translations: Vec<&'a Translation> = Vec::new();
    let mut i: usize = 0;
    proof {
        reveal(Seq::filter);
        assert(all.take(0).filter(owned) =~= Seq::empty());
    }
    while i < translation.len()
        invariant
            i <= translation.len(),
            all == translation.deep_view(),
            owned == keyed(by_package(), project_path@),
            wanted@ == project_path@,
            translations.deep_view() == all.take(i as int).filter(owned),
        decreases translation.len() - i,
    {
        let record = &translation[i];
        let ghost before = translations.deep_view();
        proof {
            assert(all.take(i + 1) == all.take(i as int).push(record@));
            all.take(i as int).lemma_filter_push(record@, owned);
        }
        if get_package_path(record.path.as_str()) == wanted {
            translations.push(record);
            assert(translations.deep_view() =~= before.push(record@));
        }
        i += 1;
    }
    proof {
        assert(all.take(i as int) == all);
    }
    translations
}

} // verus!
