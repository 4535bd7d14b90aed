use vstd::prelude::*;
use crate::handle::FontDataHandle;
use crate::selection::{AttributesView, FontAttributes, LoadedSet};

verus! {

/// Which locator backend the configuration asks for.
#[derive(Clone, Copy, Debug, PartialEq, Eq, Structural, Hash)]
pub enum FontLocatorSelection {
    /// The fontconfig service of Unix desktops.
    FontConfig,
    /// The CoreText service of macOS.
    CoreText,
    /// The GDI service of Windows.
    Gdi,
    /// Only fonts from the configured font directories; no system service.
    ConfigDirsOnly,
}

/// Why a locator could not answer.
#[derive(Clone, Debug, PartialEq, Eq)]
pub enum LocatorError {
    /// The font service failed, could not be reached, or returned unusable data.
    PlatformQuery(String),
    /// The requested backend is not available on this host.
    BackendUnavailable(FontLocatorSelection),
}

/// The views of a sequence of selections.
pub open spec fn selection_views(s: Seq<FontAttributes>) -> Seq<AttributesView> {
    s.map_values(|a: FontAttributes| a@)
}

/// What a load pass may do to the loaded-set: keep every selection that was
/// there, and add only selections that were asked for.
pub open spec fn loaded_grows_within(
    asked: Seq<AttributesView>,
    before: Set<AttributesView>,
    after: Set<AttributesView>,
) -> bool {
    &&& before.subset_of(after)
    &&& after.finite()
    &&& forall|v: AttributesView| after.contains(v) && !before.contains(v) ==> asked.contains(v)
}

/// A successful load pass: the loaded-set grew within what was asked for,
/// and exactly one handle was produced for each selection newly added.
pub open spec fn load_outcome(
    asked: Seq<AttributesView>,
    before: Set<AttributesView>,
    after: Set<AttributesView>,
    produced: nat,
) -> bool {
    &&& loaded_grows_within(asked, before, after)
    &&& produced == after.len() - before.len()
}

/// Two load passes over the same selections that share one loaded-set:
/// together they produce one handle per selection added over both; the
/// second produces nothing for what the first resolved, and where the first
/// resolved every selection, the second produces nothing and adds nothing.
pub proof fn lemma_repeated_load(
    asked: Seq<AttributesView>,
    first_before: Set<AttributesView>,
    first_after: Set<AttributesView>,
    second_after: Set<AttributesView>,
    first_produced: nat,
    second_produced: nat,
)
    requires
        first_before.finite(),
        load_outcome(asked, first_before, first_after, first_produced),
        load_outcome(asked, first_after, second_after, second_produced),
    ensures
        first_produced + second_produced == second_after.len() - first_before.len(),
        forall|v: AttributesView|
            first_after.contains(v) ==> second_after.contains(v),
        (forall|j: int| 0 <= j < asked.len() ==> first_after.contains(#[trigger] asked[j]))
            ==> second_produced == 0 && second_after == first_after,
{
    vstd::set_lib::lemma_len_subset(first_before, first_after);
    vstd::set_lib::lemma_len_subset(first_after, second_after);
    if forall|j: int| 0 <= j < asked.len() ==> first_after.contains(#[trigger] asked[j]) {
        assert(second_after =~= first_after);
    }
}

/// The contract that every locator backend meets.
pub trait FontLocator {
    /// Resolves the selections that `loaded` does not hold yet, adds each one
    /// resolved to `loaded`, and returns one handle for each of them. A
    /// selection with no match is left out of both.
    fn load_fonts(&self, fonts_selection: &[FontAttributes], loaded: &mut LoadedSet) -> (r: Result<
        Vec<FontDataHandle>,
        LocatorError,
    >)
        requires
            old(loaded).wf(),
        ensures
            final(loaded).wf(),
            loaded_grows_within(selection_views(fonts_selection@), old(loaded)@, final(loaded)@),
            r matches Ok(out) ==> load_outcome(
                selection_views(fonts_selection@),
                old(loaded)@,
                final(loaded)@,
                out@.len(),
            ),
    ;

    /// Handles of fonts that may cover some of `codepoints`, most likely first
    /// where the service ranks them; empty where it has no candidate.
    fn locate_fallback_for_codepoints(&self, codepoints: &[char]) -> (r: Result<
        Vec<FontDataHandle>,
        LocatorError,
    >);
}

/// `h` is what `query` answered for a selection that `after` holds and
/// `before` did not.
pub open spec fn answer_for_new_selection<F>(
    query: F,
    h: FontDataHandle,
    before: Set<AttributesView>,
    after: Set<AttributesView>,
) -> bool
    where
        F: Fn(&FontAttributes) -> Result<Option<FontDataHandle>, LocatorError>,
{
    exists|a: &FontAttributes|
        after.contains(a@) && !before.contains(a@) && #[trigger] query.ensures((a,), Ok(Some(h)))
}

/// The load pass that backends share. `query` asks the font service for the
/// best match of one selection: `Ok(Some(h))` when it found `h`, `Ok(None)`
/// when nothing matches, `Err` when the service failed.
///
/// Each selection that `loaded` does not hold is queried in turn; a match is
/// added to `loaded` and its handle to the output, so a selection is resolved
/// at most once for as long as the loaded-set lives. Selections already held,
/// including those resolved earlier in the same pass, are skipped. The first
/// service failure ends the pass with that error.
pub fn load_fonts_with<F>(fonts_selection: &[FontAttributes], loaded: &mut LoadedSet, query: F) -> (r:
    Result<Vec<FontDataHandle>, LocatorError>)
    where
        F: Fn(&FontAttributes) -> Result<Option<FontDataHandle>, LocatorError>,
    requires
        old(loaded).wf(),
        forall|a: &FontAttributes| #[trigger] query.requires((a,)),
    ensures
        final(loaded).wf(),
        loaded_grows_within(selection_views(fonts_selection@), old(loaded)@, final(loaded)@),
        // each newly resolved selection was matched by the service
        forall|v: AttributesView|
            final(loaded)@.contains(v) && !old(loaded)@.contains(v) ==> exists|a: &FontAttributes,
                h: FontDataHandle|
                a@ == v && #[trigger] query.ensures((a,), Ok(Some(h))),
        match r {
            Ok(out) => {
                &&& load_outcome(
                    selection_views(fonts_selection@),
                    old(loaded)@,
                    final(loaded)@,
                    out@.len(),
                )
                // each handle is the service's answer for a newly resolved selection
                &&& forall|i: int|
                    0 <= i < out@.len() ==> #[trigger] answer_for_new_selection(
                        query,
                        out@[i],
                        old(loaded)@,
                        final(loaded)@,
                    )
                // a selection left out had no match
                &&& forall|j: int|
                    0 <= j < fonts_selection@.len() ==> final(loaded)@.contains(
                        #[trigger] fonts_selection@[j]@,
                    ) || query.ensures((&fonts_selection@[j],), Ok(None))
            },
            Err(e) => exists|a: &FontAttributes|
                fonts_selection@.contains(*a) && #[trigger] query.ensures((a,), Err(e)),
        },
{
    proof {
        loaded.lemma_view_finite();
    }
    let mut out: Vec<FontDataHandle> = Vec::new();
    let mut i: usize = 0;
    while i < fonts_selection.len()
        invariant
            i <= fonts_selection@.len(),
            loaded.wf(),
            loaded@.finite(),
            old(loaded)@.subset_of(loaded@),
            out@.len() == loaded@.len() - old(loaded)@.len(),
            loaded_grows_within(selection_views(fonts_selection@), old(loaded)@, loaded@),
            forall|v: AttributesView|
                loaded@.contains(v) && !old(loaded)@.contains(v) ==> exists|a: &FontAttributes,
                    h: FontDataHandle|
                    a@ == v && #[trigger] query.ensures((a,), Ok(Some(h))),
            forall|k: int|
                0 <= k < out@.len() ==> #[trigger] answer_for_new_selection(
                    query,
                    out@[k],
                    old(loaded)@,
                    loaded@,
                ),
            forall|j: int|
                0 <= j < i ==> loaded@.contains(#[trigger] fonts_selection@[j]@) || query.ensures(
                    (&fonts_selection@[j],),
                    Ok(None),
                ),
            forall|a: &FontAttributes| #[trigger] query.requires((a,)),
        decreases fonts_selection@.len() - i,
    {
        let sel = &fonts_selection[i];
        if !loaded.contains(sel) {
            match query(sel) {
                Ok(Some(h)) => {
                    let ghost before = loaded@;
                    let ghost out_before = out@;
                    loaded.insert(sel.duplicate());
                    out.push(h);
                    assert(loaded@ == before.insert(sel@));
                    assert(selection_views(fonts_selection@)[i as int] == sel@);
                    assert forall|k: int| 0 <= k < out@.len() implies #[trigger] answer_for_new_selection(
                        query,
                        out@[k],
                        old(loaded)@,
                        loaded@,
                    ) by {
                        if k < out_before.len() {
                            assert(out@[k] == out_before[k]);
                            assert(answer_for_new_selection(query, out_before[k], old(loaded)@, before));
                        } else {
                            assert(query.ensures((sel,), Ok(Some(out@[k]))));
                        }
                    }
                },
                Ok(None) => {},
                Err(e) => {
                    assert(fonts_selection@[i as int] == *sel);
                    return Err(e);
                },
            }
        }
        i = i + 1;
    }
    Ok(out)
}

/// The backend used when resolution is restricted to the configured font
/// directories: it resolves nothing and suggests no fallback.
pub struct NopSystemSource {}

impl FontLocator for NopSystemSource {
    fn load_fonts(&self, fonts_selection: &[FontAttributes], loaded: &mut LoadedSet) -> (r: Result<
        Vec<FontDataHandle>,
        LocatorError,
    >)
        ensures
            r matches Ok(out) && out@.len() == 0,
            final(loaded)@ == old(loaded)@,
    {
        proof {
            loaded.lemma_view_finite();
        }
        Ok(Vec::new())
    }

    fn locate_fallback_for_codepoints(&self, codepoints: &[char]) -> (r: Result<
        Vec<FontDataHandle>,
        LocatorError,
    >)
        ensures
            r matches Ok(out) && out@.len() == 0,
    {
        Ok(Vec::new())
    }
}

/// Picks the backend for `locator`. Only `ConfigDirsOnly` needs no system
/// font service; this library binds none, so every other choice is reported
/// as unavailable rather than aborting.
pub fn new_locator(locator: FontLocatorSelection) -> (r: Result<Box<dyn FontLocator>, LocatorError>)
    ensures
        r is Ok <==> locator == FontLocatorSelection::ConfigDirsOnly,
        r is Err ==> r == Err::<Box<dyn FontLocator>, LocatorError>(
            LocatorError::BackendUnavailable(locator),
        ),
{
    match locator {
        FontLocatorSelection::ConfigDirsOnly => Ok(Box::new(NopSystemSource {  })),
        _ => Err(LocatorError::BackendUnavailable(locator)),
    }
}

} // verus!
