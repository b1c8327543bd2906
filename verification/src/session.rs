//! The decisions the transcription window takes as it starts and as the user works with it:
//! the model list, which model is in use, downloads, languages, microphones and labels.
use vstd::prelude::*;
use std::path::Path;
use crate::models::{ModelInfo, catalogue, is_installed, lookup, model_path, registry, human_bytes, human_bytes_spec};
use crate::text::str_eq;
use crate::decimal::{dec, pad2, push_dec, push_pad2};
use crate::paths::{path_buf_as_path, path_exists};
use crate::config::SavedConfig;
use crate::ScribaConfig;

verus! {

broadcast use vstd::string::group_string_axioms;

/// One row of the model list as the window shows it.
pub struct ModelItem {
    pub id: String,
    pub name: String,
    pub size: String,
    pub note: String,
    pub speed: i32,
    pub quality: i32,
    pub installed: bool,
    pub selected: bool,
    pub downloading: bool,
    pub progress_label: String,
}

/// A row of the model list as plain values.
pub struct ModelItemView {
    pub id: Seq<char>,
    pub name: Seq<char>,
    pub size: Seq<char>,
    pub note: Seq<char>,
    pub speed: i32,
    pub quality: i32,
    pub installed: bool,
    pub selected: bool,
    pub downloading: bool,
    pub progress_label: Seq<char>,
}

impl View for ModelItem {
    type V = ModelItemView;

    open spec fn view(&self) -> ModelItemView {
        ModelItemView {
            id: self.id@,
            name: self.name@,
            size: self.size@,
            note: self.note@,
            speed: self.speed,
            quality: self.quality,
            installed: self.installed,
            selected: self.selected,
            downloading: self.downloading,
            progress_label: self.progress_label@,
        }
    }
}

/// The notes shown under each model, in the interface language.
pub struct ModelNotes {
    pub lite: String,
    pub medium: String,
    pub turbo: String,
}

/// The rows of a model list, as plain values.
pub open spec fn items_view(items: Seq<ModelItem>) -> Seq<ModelItemView> {
    items.map_values(|it: ModelItem| it@)
}

/// The note shown for a model: the translated note of the three known models, the
/// catalogue's own note for any other.
pub open spec fn note_for(m: ModelInfo, notes: ModelNotes) -> Seq<char> {
    if m.id == "lite"@ {
        notes.lite@
    } else if m.id == "medium"@ {
        notes.medium@
    } else if m.id == "turbo"@ {
        notes.turbo@
    } else {
        m.note
    }
}

/// The row shown for a catalogue model.
pub open spec fn item_for(m: ModelInfo, notes: ModelNotes, installed: bool, selected: Seq<char>) -> ModelItemView {
    ModelItemView {
        id: m.id,
        name: m.name,
        size: m.size,
        note: note_for(m, notes),
        speed: m.speed,
        quality: m.quality,
        installed,
        selected: m.id == selected,
        downloading: false,
        progress_label: Seq::empty(),
    }
}

/// The rows for the whole catalogue, given which models are installed.
pub fn model_items(selected: &str, installed: &Vec<bool>, notes: &ModelNotes) -> (items: Vec<ModelItem>)
    requires
        installed.len() == catalogue().len(),
    ensures
        items.len() == catalogue().len(),
        forall|i: int| 0 <= i < items.len() ==> #[trigger] items[i]@ == item_for(
            catalogue()[i],
            *notes,
            installed[i],
            selected@,
        ),
{
    let models = registry();
    let mut items: Vec<ModelItem> = Vec::new();
    let mut i: usize = 0;
    while i < models.len()
        invariant
            models.len() == catalogue().len(),
            installed.len() == catalogue().len(),
            forall|j: int| 0 <= j < models.len() ==> #[trigger] models[j]@ == catalogue()[j],
            i <= models.len(),
            items.len() == i,
            forall|j: int| 0 <= j < i ==> #[trigger] items[j]@ == item_for(catalogue()[j], *notes, installed[j], selected@),
        decreases models.len() - i,
    {
        let m = models[i];
        let note = if str_eq(m.id, "lite") {
            notes.lite.clone()
        } else if str_eq(m.id, "medium") {
            notes.medium.clone()
        } else if str_eq(m.id, "turbo") {
            notes.turbo.clone()
        } else {
            String::from_str(m.note)
        };
        let it = ModelItem {
            id: String::from_str(m.id),
            name: String::from_str(m.name),
            size: String::from_str(m.size),
            note,
            speed: m.speed,
            quality: m.quality,
            installed: installed[i],
            selected: str_eq(m.id, selected),
            downloading: false,
            progress_label: String::new(),
        };
        assert(m@ == catalogue()[i as int]);
        assert(it.note@ == note_for(catalogue()[i as int], *notes));
        assert(it@ == item_for(catalogue()[i as int], *notes, installed[i as int], selected@));
        items.push(it);
        i += 1;
    }
    items
}

/// The rows for the whole catalogue, each marked installed when its file is found on disk.
pub fn build_model_items(selected: &str, data_dir: Option<&Path>, notes: &ModelNotes) -> (items: Vec<ModelItem>)
    ensures
        items.len() == catalogue().len(),
        forall|i: int| 0 <= i < items.len() ==> #[trigger] items[i]@ == item_for(
            catalogue()[i],
            *notes,
            items[i].installed,
            selected@,
        ),
{
    let models = registry();
    let mut installed: Vec<bool> = Vec::new();
    let mut i: usize = 0;
    while i < models.len()
        invariant
            models.len() == catalogue().len(),
            i <= models.len(),
            installed.len() == i,
        decreases models.len() - i,
    {
        installed.push(is_installed(models[i].id, data_dir));
        i += 1;
    }
    model_items(selected, &installed, notes)
}

/// The id of the model in use: the first selected row's, `lite` when none is selected.
pub open spec fn selected_id(items: Seq<ModelItemView>) -> Seq<char>
    decreases items.len(),
{
    if items.len() == 0 {
        "lite"@
    } else if items[0].selected {
        items[0].id
    } else {
        selected_id(items.drop_first())
    }
}

/// The id of the model in use.
pub fn current_model_id(items: &Vec<ModelItem>) -> (id: String)
    ensures
        id@ == selected_id(items_view(items@)),
{
    let ghost v = items_view(items@);
    let mut i: usize = 0;
    assert(v.skip(0) =~= v);
    while i < items.len()
        invariant
            v == items_view(items@),
            i <= items.len(),
            selected_id(v.skip(i as int)) == selected_id(v),
        decreases items.len() - i,
    {
        assert(v.skip(i as int)[0] == items[i as int]@);
        if items[i].selected {
            return items[i].id.clone();
        }
        assert(v.skip(i as int).drop_first() =~= v.skip(i + 1));
        i += 1;
    }
    String::from_str("lite")
}

/// Row `v` with its selection set to `selected`.
pub open spec fn with_selection(v: ModelItemView, selected: bool) -> ModelItemView {
    ModelItemView { selected, ..v }
}

/// The rows after the model `id` is chosen: it alone is selected.
pub open spec fn chosen(items: Seq<ModelItemView>, id: Seq<char>) -> Seq<ModelItemView> {
    Seq::new(items.len(), |i: int| with_selection(items[i], items[i].id == id))
}

/// Chooses the model `id`: its row is selected, every other row is not.
pub fn select_model(items: &mut Vec<ModelItem>, id: &str)
    ensures
        items_view(final(items)@) == chosen(items_view(old(items)@), id@),
{
    let ghost before = items_view(items@);
    let mut i: usize = 0;
    while i < items.len()
        invariant
            before.len() == items.len(),
            i <= items.len(),
            forall|j: int| 0 <= j < i ==> #[trigger] items@[j]@ == with_selection(before[j], before[j].id == id@),
            forall|j: int| i <= j < items.len() ==> #[trigger] items@[j]@ == before[j],
        decreases items.len() - i,
    {
        assert(items@[i as int]@ == before[i as int]);
        let same = str_eq(items[i].id.as_str(), id);
        items[i].selected = same;
        assert(items@[i as int]@ == with_selection(before[i as int], before[i as int].id == id@));
        i += 1;
    }
    assert(items_view(items@) =~= chosen(before, id@));
}

/// Choosing a model makes it the model in use when the list has it; otherwise the
/// model in use is `lite`.
pub proof fn lemma_chosen_is_current(items: Seq<ModelItemView>, id: Seq<char>)
    ensures
        selected_id(chosen(items, id)) == if exists|j: int| 0 <= j < items.len() && #[trigger] items[j].id == id {
            id
        } else {
            "lite"@
        },
    decreases items.len(),
{
    if items.len() > 0 {
        let rest = items.drop_first();
        lemma_chosen_is_current(rest, id);
        assert(chosen(items, id).drop_first() =~= chosen(rest, id));
        if items[0].id != id {
            if exists|j: int| 0 <= j < items.len() && #[trigger] items[j].id == id {
                let j = choose|j: int| 0 <= j < items.len() && #[trigger] items[j].id == id;
                assert(rest[j - 1].id == id);
            }
            if exists|j: int| 0 <= j < rest.len() && #[trigger] rest[j].id == id {
                let j = choose|j: int| 0 <= j < rest.len() && #[trigger] rest[j].id == id;
                assert(items[j + 1].id == id);
            }
        }
    }
}

/// Row `v` once the download of model `id` has started, its label showing `label`.
pub open spec fn download_started(v: ModelItemView, id: Seq<char>, label: Seq<char>) -> ModelItemView {
    if v.id == id {
        ModelItemView { downloading: true, progress_label: label, ..v }
    } else {
        v
    }
}

/// Marks the row of model `id` as downloading, with `label` as its progress text.
pub fn start_download(items: &mut Vec<ModelItem>, id: &str, label: &str)
    ensures
        items_view(final(items)@) == Seq::new(
            old(items)@.len(),
            |i: int| download_started(old(items)@[i]@, id@, label@),
        ),
{
    let ghost before = items@;
    let mut i: usize = 0;
    while i < items.len()
        invariant
            before.len() == items.len(),
            i <= items.len(),
            forall|j: int| 0 <= j < i ==> #[trigger] items@[j]@ == download_started(before[j]@, id@, label@),
            forall|j: int| i <= j < items.len() ==> #[trigger] items@[j] == before[j],
        decreases items.len() - i,
    {
        if str_eq(items[i].id.as_str(), id) {
            items[i].downloading = true;
            items[i].progress_label = String::from_str(label);
        }
        i += 1;
    }
    assert(items_view(items@) =~= Seq::new(before.len(), |i: int| download_started(before[i]@, id@, label@)));
}

/// Row `v` once the download of model `id` has progressed, its label showing `label`.
pub open spec fn download_progressed(v: ModelItemView, id: Seq<char>, label: Seq<char>) -> ModelItemView {
    if v.id == id {
        ModelItemView { progress_label: label, ..v }
    } else {
        v
    }
}

/// Shows `label` as the download progress of model `id`.
pub fn show_download_progress(items: &mut Vec<ModelItem>, id: &str, label: &str)
    ensures
        items_view(final(items)@) == Seq::new(
            old(items)@.len(),
            |i: int| download_progressed(old(items)@[i]@, id@, label@),
        ),
{
    let ghost before = items@;
    let mut i: usize = 0;
    while i < items.len()
        invariant
            before.len() == items.len(),
            i <= items.len(),
            forall|j: int| 0 <= j < i ==> #[trigger] items@[j]@ == download_progressed(before[j]@, id@, label@),
            forall|j: int| i <= j < items.len() ==> #[trigger] items@[j] == before[j],
        decreases items.len() - i,
    {
        if str_eq(items[i].id.as_str(), id) {
            items[i].progress_label = String::from_str(label);
        }
        i += 1;
    }
    assert(items_view(items@) =~= Seq::new(before.len(), |i: int| download_progressed(before[i]@, id@, label@)));
}

/// Row `v` once the download of model `id` has ended, `ok` telling whether it succeeded:
/// the row of `id` stops downloading and, on success, is installed; on success the
/// downloaded model becomes the one selected.
pub open spec fn download_finished(v: ModelItemView, id: Seq<char>, ok: bool) -> ModelItemView {
    let w = if v.id == id {
        ModelItemView { downloading: false, progress_label: Seq::empty(), installed: v.installed || ok, ..v }
    } else {
        v
    };
    if ok {
        with_selection(w, v.id == id)
    } else {
        w
    }
}

/// Records the end of the download of model `id`.
pub fn finish_download(items: &mut Vec<ModelItem>, id: &str, ok: bool)
    ensures
        items_view(final(items)@) == Seq::new(
            old(items)@.len(),
            |i: int| download_finished(old(items)@[i]@, id@, ok),
        ),
{
    let ghost before = items@;
    let mut i: usize = 0;
    while i < items.len()
        invariant
            before.len() == items.len(),
            i <= items.len(),
            forall|j: int| 0 <= j < i ==> #[trigger] items@[j]@ == download_finished(before[j]@, id@, ok),
            forall|j: int| i <= j < items.len() ==> #[trigger] items@[j] == before[j],
        decreases items.len() - i,
    {
        let same = str_eq(items[i].id.as_str(), id);
        if same {
            items[i].downloading = false;
            items[i].progress_label = String::new();
            if ok {
                items[i].installed = true;
            }
        }
        if ok {
            items[i].selected = same;
        }
        i += 1;
    }
    assert(items_view(items@) =~= Seq::new(before.len(), |i: int| download_finished(before[i]@, id@, ok)));
}

/// A successful download makes the downloaded model installed and the one in use.
pub proof fn lemma_download_selects(items: Seq<ModelItemView>, id: Seq<char>, k: int)
    requires
        0 <= k < items.len(),
        items[k].id == id,
    ensures
        ({
            let after = Seq::new(items.len(), |i: int| download_finished(items[i], id, true));
            &&& after[k].installed
            &&& !after[k].downloading
            &&& selected_id(after) == id
        }),
{
    let after = Seq::new(items.len(), |i: int| download_finished(items[i], id, true));
    let plain = Seq::new(
        items.len(),
        |i: int|
            if items[i].id == id {
                ModelItemView {
                    downloading: false,
                    progress_label: Seq::empty(),
                    installed: true,
                    ..items[i]
                }
            } else {
                items[i]
            },
    );
    assert(after =~= chosen(plain, id));
    assert(plain[k].id == id);
    lemma_chosen_is_current(plain, id);
}

/// Whether `id` is one of the three models whose notes are translated.
pub open spec fn has_translated_note(id: Seq<char>) -> bool {
    id == "lite"@ || id == "medium"@ || id == "turbo"@
}

/// The translated note of a model that has one.
pub open spec fn translated_note(id: Seq<char>, notes: ModelNotes) -> Seq<char> {
    if id == "lite"@ {
        notes.lite@
    } else if id == "medium"@ {
        notes.medium@
    } else {
        notes.turbo@
    }
}

/// Row `v` showing the note `note`.
pub open spec fn with_note(v: ModelItemView, note: Seq<char>) -> ModelItemView {
    ModelItemView { note, ..v }
}

/// Every row up to and including `i` is of a model whose note is translated.
pub open spec fn translated_through(items: Seq<ModelItemView>, i: int) -> bool {
    forall|j: int| 0 <= j <= i ==> has_translated_note(#[trigger] items[j].id)
}

/// Shows the notes in a new interface language. The rows are updated in order and the
/// update stops at the first row of a model that has no translated note, which is then
/// reported by returning `false`.
pub fn retranslate_notes(items: &mut Vec<ModelItem>, notes: &ModelNotes) -> (complete: bool)
    ensures
        final(items)@.len() == old(items)@.len(),
        complete == translated_through(items_view(old(items)@), old(items)@.len() - 1),
        forall|i: int| 0 <= i < old(items)@.len() ==> #[trigger] final(items)@[i]@ == if translated_through(items_view(old(items)@), i) {
            with_note(old(items)@[i]@, translated_note(old(items)@[i]@.id, *notes))
        } else {
            old(items)@[i]@
        },
{
    let ghost before = items@;
    let ghost bv = items_view(before);
    let mut k: usize = 0;
    while k < items.len()
        invariant
            before == items@,
            bv == items_view(before),
            k <= items.len(),
            translated_through(bv, k - 1),
        ensures
            k <= items.len(),
            translated_through(bv, k - 1),
            k < items.len() ==> !has_translated_note(bv[k as int].id),
        decreases items.len() - k,
    {
        assert(bv[k as int] == before[k as int]@);
        let id = items[k].id.as_str();
        if !(str_eq(id, "lite") || str_eq(id, "medium") || str_eq(id, "turbo")) {
            break;
        }
        k += 1;
    }
    assert forall|j: int| k <= j < before.len() implies !translated_through(bv, j) by {
        assert(!has_translated_note(bv[k as int].id));
        assert(0 <= k <= j);
    }
    let mut i: usize = 0;
    while i < k
        invariant
            before.len() == items.len(),
            bv == items_view(before),
            k <= items.len(),
            i <= k,
            translated_through(bv, k - 1),
            forall|j: int| 0 <= j < i ==> #[trigger] items@[j]@ == with_note(before[j]@, translated_note(before[j]@.id, *notes)),
            forall|j: int| i <= j < items.len() ==> #[trigger] items@[j] == before[j],
        decreases k - i,
    {
        assert(bv[i as int] == before[i as int]@);
        let note = if str_eq(items[i].id.as_str(), "lite") {
            notes.lite.clone()
        } else if str_eq(items[i].id.as_str(), "medium") {
            notes.medium.clone()
        } else {
            notes.turbo.clone()
        };
        items[i].note = note;
        i += 1;
    }
    k == items.len()
}

/// Whether a download's progress is shown: when at least 4 000 000 bytes came since it was
/// last shown, or when the download is complete.
pub open spec fn posts_progress(downloaded: u64, last_posted: u64, total: Option<u64>) -> bool {
    let fresh = if downloaded >= last_posted { downloaded - last_posted } else { 0 };
    !(fresh < 4_000_000 && match total {
        Some(t) => downloaded < t,
        None => true,
    })
}

/// Decides whether the progress of a download is to be shown now.
pub fn should_post_progress(downloaded: u64, last_posted: u64, total: Option<u64>) -> (post: bool)
    ensures
        post == posts_progress(downloaded, last_posted, total),
{
    let fresh = downloaded.saturating_sub(last_posted);
    let incomplete = match total {
        Some(t) => downloaded < t,
        None => true,
    };
    !(fresh < 4_000_000 && incomplete)
}

/// The last report of a download whose size is known is always shown, and so is any
/// report 4 000 000 bytes or more past the last one shown.
pub proof fn lemma_progress_shown(downloaded: u64, last_posted: u64, total: Option<u64>)
    ensures
        total == Some(downloaded) ==> posts_progress(downloaded, last_posted, total),
        downloaded >= last_posted + 4_000_000 ==> posts_progress(downloaded, last_posted, total),
{
}

/// The progress text of a download: bytes so far, then the total when it is known.
pub open spec fn download_label_spec(downloaded: u64, total: Option<u64>) -> Seq<char> {
    match total {
        Some(t) => human_bytes_spec(downloaded as nat) + " / "@ + human_bytes_spec(t as nat),
        None => human_bytes_spec(downloaded as nat),
    }
}

/// The progress text of a download, e.g. `"12,5 MB / 515,0 MB"`.
pub fn download_label(downloaded: u64, total: Option<u64>) -> (s: String)
    ensures
        s@ == download_label_spec(downloaded, total),
{
    match total {
        Some(t) => {
            let mut s = human_bytes(downloaded);
            s.append(" / ");
            let rest = human_bytes(t);
            s.append(rest.as_str());
            s
        },
        None => human_bytes(downloaded),
    }
}

/// One step of the progress filter: a report at `progress` passes when it is above `highest`,
/// and the highest so far becomes it.
pub open spec fn filter_step(highest: i32, progress: i32) -> (bool, i32) {
    if progress > highest {
        (true, progress)
    } else {
        (false, highest)
    }
}

/// Lets a progress report through only when it goes beyond every one reported before;
/// `highest` keeps the highest so far.
pub fn advance_progress(highest: &mut i32, progress: i32) -> (report: bool)
    ensures
        (report, *final(highest)) == filter_step(*old(highest), progress),
{
    if progress > *highest {
        *highest = progress;
        true
    } else {
        false
    }
}

/// The progress values the filter lets through, in order, when the values `progress` arrive
/// one after another and the filter starts at `highest`.
pub open spec fn passed_reports(highest: i32, progress: Seq<i32>) -> Seq<i32>
    decreases progress.len(),
{
    if progress.len() == 0 {
        Seq::empty()
    } else {
        let (report, next) = filter_step(highest, progress[0]);
        if report {
            seq![progress[0]] + passed_reports(next, progress.drop_first())
        } else {
            passed_reports(next, progress.drop_first())
        }
    }
}

/// Over a whole run, the values the filter lets through rise strictly and all lie above where
/// the filter started; with values of at most 100 and a start between 0 and 100, at most
/// `100 - highest` of them get through.
pub proof fn lemma_reports_rise(highest: i32, progress: Seq<i32>)
    ensures
        forall|i: int, j: int| 0 <= i < j < passed_reports(highest, progress).len()
            ==> passed_reports(highest, progress)[i] < passed_reports(highest, progress)[j],
        forall|i: int| 0 <= i < passed_reports(highest, progress).len()
            ==> passed_reports(highest, progress)[i] > highest,
        0 <= highest <= 100 && (forall|i: int| 0 <= i < progress.len() ==> progress[i] <= 100)
            ==> passed_reports(highest, progress).len() <= 100 - highest,
    decreases progress.len(),
{
    if progress.len() > 0 {
        let rest = progress.drop_first();
        let (report, next) = filter_step(highest, progress[0]);
        lemma_reports_rise(next, rest);
        let tail = passed_reports(next, rest);
        assert(passed_reports(highest, progress) == if report { seq![progress[0]] + tail } else { tail });
        if report {
            let r = seq![progress[0]] + tail;
            assert forall|i: int, j: int| 0 <= i < j < r.len() implies r[i] < r[j] by {
                if i > 0 {
                    assert(r[i] == tail[i - 1] && r[j] == tail[j - 1]);
                } else {
                    assert(r[j] == tail[j - 1]);
                }
            }
            assert forall|i: int| 0 <= i < r.len() implies r[i] > highest by {
                if i > 0 {
                    assert(r[i] == tail[i - 1]);
                }
            }
        }
        if 0 <= highest <= 100 && forall|i: int| 0 <= i < progress.len() ==> progress[i] <= 100 {
            assert forall|i: int| 0 <= i < rest.len() implies rest[i] <= 100 by {
                assert(rest[i] == progress[i + 1]);
            }
            assert(progress[0] <= 100);
            assert(tail.len() <= 100 - next);
        }
    }
}

/// The index of the first catalogue model marked installed in `installed`, from `i` on.
pub open spec fn first_installed_from(installed: Seq<bool>, i: int) -> Option<int>
    decreases installed.len() - i,
{
    if i < 0 || i >= installed.len() {
        None
    } else if installed[i] {
        Some(i)
    } else {
        first_installed_from(installed, i + 1)
    }
}

/// The model the window starts with: the configured one when it is installed, else the
/// saved one when it is installed, else the first installed model of the catalogue, else
/// the configured one, to be downloaded.
pub open spec fn initial_model_spec(
    configured: Seq<char>,
    configured_installed: bool,
    saved: Seq<char>,
    saved_installed: bool,
    installed: Seq<bool>,
) -> Seq<char> {
    if configured_installed {
        configured
    } else if saved_installed {
        saved
    } else {
        match first_installed_from(installed, 0) {
            Some(i) => catalogue()[i].id,
            None => configured,
        }
    }
}

/// Picks the model to start with, given which models are installed.
pub fn pick_initial_model(
    configured: &str,
    configured_installed: bool,
    saved: &str,
    saved_installed: bool,
    installed: &Vec<bool>,
) -> (m: String)
    requires
        installed.len() == catalogue().len(),
    ensures
        m@ == initial_model_spec(configured@, configured_installed, saved@, saved_installed, installed@),
{
    if configured_installed {
        return String::from_str(configured);
    }
    if saved_installed {
        return String::from_str(saved);
    }
    let models = registry();
    let mut i: usize = 0;
    while i < installed.len()
        invariant
            models.len() == catalogue().len(),
            installed.len() == catalogue().len(),
            forall|j: int| 0 <= j < models.len() ==> #[trigger] models[j]@ == catalogue()[j],
            i <= installed.len(),
            first_installed_from(installed@, i as int) == first_installed_from(installed@, 0),
            !configured_installed && !saved_installed,
        decreases installed.len() - i,
    {
        if installed[i] {
            assert(first_installed_from(installed@, i as int) == Some(i as int));
            assert(models[i as int]@ == catalogue()[i as int]);
            return String::from_str(models[i].id);
        }
        i += 1;
    }
    String::from_str(configured)
}

/// Picks the model to start with, looking on disk for which models are installed. It is
/// the configured model or one of the catalogue.
pub fn initial_model(configured: &str, saved: &str, data_dir: Option<&Path>) -> (m: String)
    ensures
        m@ == configured@ || lookup(m@) is Some,
{
    let models = registry();
    let mut installed: Vec<bool> = Vec::new();
    let mut i: usize = 0;
    while i < models.len()
        invariant
            models.len() == catalogue().len(),
            forall|j: int| 0 <= j < models.len() ==> #[trigger] models[j]@ == catalogue()[j],
            i <= models.len(),
            installed.len() == i,
        decreases models.len() - i,
    {
        installed.push(is_installed(models[i].id, data_dir));
        i += 1;
    }
    let configured_installed = is_installed(configured, data_dir);
    let saved_installed = is_installed(saved, data_dir);
    let m = pick_initial_model(configured, configured_installed, saved, saved_installed, &installed);
    proof {
        if !configured_installed && !saved_installed {
            if let Some(k) = first_installed_from(installed@, 0) {
                lemma_first_installed_in_range(installed@, 0);
                lemma_catalogue_ids_found(k);
            }
        }
    }
    m
}

proof fn lemma_first_installed_in_range(installed: Seq<bool>, i: int)
    ensures
        first_installed_from(installed, i) matches Some(k) ==> i <= k < installed.len(),
    decreases installed.len() - i,
{
    if 0 <= i < installed.len() && !installed[i] {
        lemma_first_installed_in_range(installed, i + 1);
    }
}

/// Every model of the catalogue is found by its id.
pub proof fn lemma_catalogue_ids_found(k: int)
    requires
        0 <= k < catalogue().len(),
    ensures
        lookup(catalogue()[k].id) == Some(catalogue()[k]),
{
    reveal_strlit("lite");
    reveal_strlit("medium");
    reveal_strlit("turbo");
    let c = catalogue();
    let c1 = c.drop_first();
    let c2 = c1.drop_first();
    assert(c1[0] == c[1]);
    assert(c2[0] == c[2]);
    assert("lite"@.len() == 4);
    assert("medium"@.len() == 6);
    assert("turbo"@.len() == 5);
    assert(c[0].id != c[1].id);
    assert(c[0].id != c[2].id);
    assert(c[1].id != c[2].id);
    if k == 0 {
        assert(crate::models::find_in(c, c[0].id) == Some(c[0]));
    } else if k == 1 {
        assert(crate::models::find_in(c1, c[1].id) == Some(c[1]));
        assert(crate::models::find_in(c, c[1].id) == Some(c[1]));
    } else {
        assert(crate::models::find_in(c2, c[2].id) == Some(c[2]));
        assert(crate::models::find_in(c1, c[2].id) == Some(c[2]));
        assert(crate::models::find_in(c, c[2].id) == Some(c[2]));
    }
}

/// How the window starts: the model in use, whether speakers are told apart, and the
/// interface language.
pub struct SessionStart {
    pub model: String,
    pub diarize: bool,
    pub ui_language: Option<String>,
}

/// How the window starts, from the caller's configuration and the saved settings:
/// speakers are told apart when either asks for it, and the saved interface language
/// wins over the configured one.
pub fn session_start(cfg: &ScribaConfig, saved: &SavedConfig) -> (s: SessionStart)
    ensures
        s.model@ == cfg.model@ || lookup(s.model@) is Some,
        s.diarize == (saved.diarize || cfg.diarize),
        s.ui_language == match saved.ui_language {
            Some(l) => Some(l),
            None => cfg.ui_language,
        },
{
    let data_dir = match &cfg.data_dir {
        Some(d) => Some(path_buf_as_path(d)),
        None => None,
    };
    let model = initial_model(cfg.model.as_str(), saved.model.as_str(), data_dir);
    let ui_language = match &saved.ui_language {
        Some(l) => Some(l.clone()),
        None => match &cfg.ui_language {
            Some(l) => Some(l.clone()),
            None => None,
        },
    };
    SessionStart { model, diarize: saved.diarize || cfg.diarize, ui_language }
}

/// A transcription language as offered in the language list: its label and its code.
pub struct LanguageOption {
    pub label: String,
    pub code: String,
}

/// The language list: automatic detection under `auto_label`, then the six languages
/// by their own names.
pub open spec fn language_table(auto_label: Seq<char>) -> Seq<(Seq<char>, Seq<char>)> {
    seq![
        (auto_label, "auto"@),
        ("Italiano"@, "it"@),
        ("English"@, "en"@),
        ("Espa\u{00f1}ol"@, "es"@),
        ("Fran\u{00e7}ais"@, "fr"@),
        ("Deutsch"@, "de"@),
        ("Portugu\u{00ea}s"@, "pt"@),
    ]
}

/// The language list as plain values.
pub open spec fn options_view(options: Seq<LanguageOption>) -> Seq<(Seq<char>, Seq<char>)> {
    options.map_values(|o: LanguageOption| (o.label@, o.code@))
}

fn language_option(label: &str, code: &str) -> (o: LanguageOption)
    ensures
        o.label@ == label@,
        o.code@ == code@,
{
    LanguageOption { label: String::from_str(label), code: String::from_str(code) }
}

/// The language list offered for transcription.
pub fn language_options(auto_label: &str) -> (options: Vec<LanguageOption>)
    ensures
        options_view(options@) == language_table(auto_label@),
{
    let options = vec![
        language_option(auto_label, "auto"),
        language_option("Italiano", "it"),
        language_option("English", "en"),
        language_option("Espa\u{00f1}ol", "es"),
        language_option("Fran\u{00e7}ais", "fr"),
        language_option("Deutsch", "de"),
        language_option("Portugu\u{00ea}s", "pt"),
    ];
    assert(options_view(options@) =~= language_table(auto_label@));
    options
}

/// Shows automatic detection under a new label, as when the interface language changes.
pub fn relabel_automatic(options: &mut Vec<LanguageOption>, auto_label: &str)
    requires
        old(options)@.len() > 0,
    ensures
        options_view(final(options)@) == options_view(old(options)@).update(0, (auto_label@, old(options)@[0].code@)),
{
    options[0].label = String::from_str(auto_label);
    assert(options_view(options@) =~= options_view(old(options)@).update(0, (auto_label@, old(options)@[0].code@)));
}

/// The label of the first entry with code `code`, if there is one.
pub open spec fn label_of_code(table: Seq<(Seq<char>, Seq<char>)>, code: Seq<char>) -> Option<Seq<char>>
    decreases table.len(),
{
    if table.len() == 0 {
        None
    } else if table[0].1 == code {
        Some(table[0].0)
    } else {
        label_of_code(table.drop_first(), code)
    }
}

/// The code of the last entry labelled `label`, if there is one: a table collected into a
/// map keyed by label keeps the last code given for each label.
pub open spec fn code_of_label(table: Seq<(Seq<char>, Seq<char>)>, label: Seq<char>) -> Option<Seq<char>>
    decreases table.len(),
{
    if table.len() == 0 {
        None
    } else if table.last().0 == label {
        Some(table.last().1)
    } else {
        code_of_label(table.drop_last(), label)
    }
}

/// The label shown for the language `code`: the first entry with that code, or `auto_label`.
pub fn language_label(options: &Vec<LanguageOption>, code: &str, auto_label: &str) -> (label: String)
    ensures
        label@ == match label_of_code(options_view(options@), code@) {
            Some(l) => l,
            None => auto_label@,
        },
{
    let ghost t = options_view(options@);
    let mut i: usize = 0;
    assert(t.skip(0) =~= t);
    while i < options.len()
        invariant
            t == options_view(options@),
            i <= options.len(),
            label_of_code(t.skip(i as int), code@) == label_of_code(t, code@),
        decreases options.len() - i,
    {
        assert(t.skip(i as int)[0] == (options@[i as int].label@, options@[i as int].code@));
        if str_eq(options[i].code.as_str(), code) {
            return options[i].label.clone();
        }
        assert(t.skip(i as int).drop_first() =~= t.skip(i + 1));
        i += 1;
    }
    String::from_str(auto_label)
}

/// The code of the language labelled `label`, if the list has it.
pub fn language_code(options: &Vec<LanguageOption>, label: &str) -> (code: Option<String>)
    ensures
        match code {
            Some(c) => code_of_label(options_view(options@), label@) == Some(c@),
            None => code_of_label(options_view(options@), label@) is None,
        },
{
    let ghost t = options_view(options@);
    let mut i: usize = options.len();
    assert(t.take(t.len() as int) =~= t);
    while i > 0
        invariant
            t == options_view(options@),
            i <= options.len(),
            code_of_label(t.take(i as int), label@) == code_of_label(t, label@),
        decreases i,
    {
        let k = i - 1;
        assert(t.take(i as int).last() == (options@[k as int].label@, options@[k as int].code@));
        if str_eq(options[k].label.as_str(), label) {
            return Some(options[k].code.clone());
        }
        assert(t.take(i as int).drop_last() =~= t.take(k as int));
        i = k;
    }
    None
}

/// The language selected at start for the configured language `code`: the label shown for
/// it, and the code that label stands for, `auto` when the list has none.
pub fn initial_language(options: &Vec<LanguageOption>, code: &str, auto_label: &str) -> (choice: LanguageOption)
    ensures
        choice.label@ == match label_of_code(options_view(options@), code@) {
            Some(l) => l,
            None => auto_label@,
        },
        choice.code@ == match code_of_label(options_view(options@), choice.label@) {
            Some(c) => c,
            None => "auto"@,
        },
{
    let label = language_label(options, code, auto_label);
    let code = match language_code(options, label.as_str()) {
        Some(c) => c,
        None => String::from_str("auto"),
    };
    LanguageOption { label, code }
}

/// The labels of a language table are distinct.
pub open spec fn labels_distinct(table: Seq<(Seq<char>, Seq<char>)>) -> bool {
    forall|i: int, j: int| 0 <= i < j < table.len() ==> #[trigger] table[i].0 != #[trigger] table[j].0
}

/// In a table with distinct labels, the code of the label shown for a code is that code.
pub proof fn lemma_label_code_round_trip(table: Seq<(Seq<char>, Seq<char>)>, code: Seq<char>)
    requires
        labels_distinct(table),
    ensures
        label_of_code(table, code) matches Some(l) ==> code_of_label(table, l) == Some(code),
{
    lemma_label_index(table, code);
    if let Some(l) = label_of_code(table, code) {
        lemma_code_of_label_found(table, l, label_index(table, code));
    }
}

/// Where `label_of_code` finds its entry.
spec fn label_index(table: Seq<(Seq<char>, Seq<char>)>, code: Seq<char>) -> int
    decreases table.len(),
{
    if table.len() == 0 {
        0
    } else if table[0].1 == code {
        0
    } else {
        1 + label_index(table.drop_first(), code)
    }
}

proof fn lemma_label_index(table: Seq<(Seq<char>, Seq<char>)>, code: Seq<char>)
    ensures
        label_of_code(table, code) matches Some(l) ==> {
            let k = label_index(table, code);
            &&& 0 <= k < table.len()
            &&& table[k] == (l, code)
        },
    decreases table.len(),
{
    if table.len() > 0 && table[0].1 != code {
        lemma_label_index(table.drop_first(), code);
    }
}

/// In a table with distinct labels, the code of the label of entry `k` is that entry's code.
proof fn lemma_code_of_label_found(table: Seq<(Seq<char>, Seq<char>)>, label: Seq<char>, k: int)
    requires
        labels_distinct(table),
        0 <= k < table.len(),
        table[k].0 == label,
    ensures
        code_of_label(table, label) == Some(table[k].1),
    decreases table.len(),
{
    if k != table.len() - 1 {
        let front = table.drop_last();
        assert(table.last().0 != label);
        assert(labels_distinct(front)) by {
            assert forall|i: int, j: int| 0 <= i < j < front.len() implies #[trigger] front[i].0 != #[trigger] front[j].0 by {
                assert(front[i] == table[i] && front[j] == table[j]);
            }
        }
        lemma_code_of_label_found(front, label, k);
    }
}

/// With an automatic-detection label unlike the six language names, picking the label
/// shown for a configured language gives back that language's code, and any code the
/// list lacks comes back as `auto`.
pub proof fn lemma_language_round_trip(auto_label: Seq<char>, code: Seq<char>)
    requires
        auto_label != "Italiano"@,
        auto_label != "English"@,
        auto_label != "Espa\u{00f1}ol"@,
        auto_label != "Fran\u{00e7}ais"@,
        auto_label != "Deutsch"@,
        auto_label != "Portugu\u{00ea}s"@,
    ensures
        ({
            let t = language_table(auto_label);
            let shown = match label_of_code(t, code) {
                Some(l) => l,
                None => auto_label,
            };
            code_of_label(t, shown) == Some(if label_of_code(t, code) is Some { code } else { "auto"@ })
        }),
{
    reveal_strlit("Italiano");
    reveal_strlit("English");
    reveal_strlit("Espa\u{00f1}ol");
    reveal_strlit("Fran\u{00e7}ais");
    reveal_strlit("Deutsch");
    reveal_strlit("Portugu\u{00ea}s");
    let t = language_table(auto_label);
    assert(labels_distinct(t)) by {
        assert forall|i: int, j: int| 0 <= i < j < t.len() implies #[trigger] t[i].0 != #[trigger] t[j].0 by {
            if i > 0 {
                assert(t[i].0.len() != t[j].0.len() || t[i].0[0] != t[j].0[0] || t[i].0[1] != t[j].0[1]);
            }
        }
    }
    lemma_label_code_round_trip(t, code);
    if label_of_code(t, code) is None {
        lemma_code_of_label_found(t, auto_label, 0);
    }
}

/// The microphone selected at start: the system's default input, else the first one
/// listed, else a dash.
pub fn default_microphone(default_input: Option<String>, inputs: &Vec<String>) -> (mic: String)
    ensures
        mic@ == match default_input {
            Some(d) => d@,
            None => if inputs.len() > 0 {
                inputs[0]@
            } else {
                "\u{2014}"@
            },
        },
{
    match default_input {
        Some(d) => d,
        None => if inputs.len() > 0 {
            inputs[0].clone()
        } else {
            String::from_str("\u{2014}")
        },
    }
}

/// `secs` seconds as minutes and seconds, `mm:ss`.
pub open spec fn clock_spec(secs: nat) -> Seq<char> {
    pad2(secs / 60) + seq![':'] + pad2(secs % 60)
}

/// Elapsed or remaining time as `mm:ss`; the minutes grow past two digits when needed.
pub fn clock_text(secs: u64) -> (s: String)
    ensures
        s@ == clock_spec(secs as nat),
{
    let mut s = String::new();
    push_pad2(&mut s, (secs / 60) as u128);
    proof {
        reveal_strlit(":");
    }
    s.append(":");
    push_pad2(&mut s, (secs % 60) as u128);
    s
}

/// `secs` seconds as hours, minutes and seconds, `hh:mm:ss`.
pub open spec fn duration_spec(secs: nat) -> Seq<char> {
    pad2(secs / 3600) + seq![':'] + pad2((secs % 3600) / 60) + seq![':'] + pad2(secs % 60)
}

/// A recording's length as `hh:mm:ss`.
pub fn duration_text(secs: u64) -> (s: String)
    ensures
        s@ == duration_spec(secs as nat),
{
    let mut s = String::new();
    push_pad2(&mut s, (secs / 3600) as u128);
    proof {
        reveal_strlit(":");
    }
    s.append(":");
    push_pad2(&mut s, ((secs % 3600) / 60) as u128);
    s.append(":");
    push_pad2(&mut s, (secs % 60) as u128);
    s
}

/// The name shown for the audio being transcribed, followed by its length: `name (hh:mm:ss)`.
pub fn source_label(name: &str, secs: u64) -> (s: String)
    ensures
        s@ == name@ + " ("@ + duration_spec(secs as nat) + ")"@,
{
    let mut s = String::from_str(name);
    s.append(" (");
    let d = duration_text(secs);
    s.append(d.as_str());
    s.append(")");
    s
}

/// A message shown in place of the transcript when something went wrong: a warning sign,
/// then the message.
pub fn warning_text(message: &str) -> (s: String)
    ensures
        s@ == "\u{26a0}\u{fe0e} "@ + message@,
{
    let mut s = String::from_str("\u{26a0}\u{fe0e} ");
    s.append(message);
    s
}

/// A warning that names what failed, then why: `⚠ what: why`.
pub fn warning_with_cause(what: &str, cause: &str) -> (s: String)
    ensures
        s@ == "\u{26a0}\u{fe0e} "@ + what@ + ": "@ + cause@,
{
    let mut s = String::from_str("\u{26a0}\u{fe0e} ");
    s.append(what);
    s.append(": ");
    s.append(cause);
    s
}

/// Appends the transcript of one more recording, separated from what came before by an
/// empty line.
pub fn append_transcript(all: &mut String, text: &str)
    ensures
        final(all)@ == if old(all)@.len() == 0 {
            text@
        } else {
            old(all)@ + "\n\n"@ + text@
        },
{
    if !all.as_str().is_empty() {
        all.append("\n\n");
    }
    all.append(text);
    proof {
        assert(Seq::<char>::empty() + text@ =~= text@);
    }
}

/// Whether a transfer report from the recorder device is shown: when at least 500 bytes came
/// since the last one shown, or when the file is complete.
pub open spec fn posts_transfer(received: u32, last_posted: u32, total: u32) -> bool {
    let fresh = if received >= last_posted { received - last_posted } else { 0 };
    !(fresh < 500 && received < total)
}

/// Decides whether a transfer report from the recorder device is to be shown now.
pub fn should_post_transfer(received: u32, last_posted: u32, total: u32) -> (post: bool)
    ensures
        post == posts_transfer(received, last_posted, total),
{
    !(received.saturating_sub(last_posted) < 500 && received < total)
}

/// The transfer text of file `index` (counted from 0) of `count` read from the recorder
/// device: `Download i/n — received / total`.
pub fn transfer_label(index: usize, count: usize, received: u32, total: u32) -> (s: String)
    requires
        index < count,
    ensures
        s@ == "Download "@ + dec(index as nat + 1) + seq!['/'] + dec(count as nat) + " \u{2014} "@
            + human_bytes_spec(received as nat) + " / "@ + human_bytes_spec(total as nat),
{
    let mut s = String::from_str("Download ");
    push_dec(&mut s, (index + 1) as u128);
    proof {
        reveal_strlit("/");
    }
    s.append("/");
    push_dec(&mut s, count as u128);
    s.append(" \u{2014} ");
    let a = human_bytes(received as u64);
    s.append(a.as_str());
    s.append(" / ");
    let b = human_bytes(total as u64);
    s.append(b.as_str());
    s
}

/// The name shown for recording `index` (counted from 0) of `count` read from the
/// recorder device: `name (i/n)`.
pub fn recording_label(name: &str, index: usize, count: usize) -> (s: String)
    requires
        index < count,
    ensures
        s@ == name@ + " ("@ + dec(index as nat + 1) + seq!['/'] + dec(count as nat) + ")"@,
{
    let mut s = String::from_str(name);
    s.append(" (");
    push_dec(&mut s, (index + 1) as u128);
    proof {
        reveal_strlit("/");
    }
    s.append("/");
    push_dec(&mut s, count as u128);
    s.append(")");
    s
}

/// Whether the window uses the dark theme: as configured, and as the system does when the
/// configuration leaves it open.
pub fn dark_theme(configured: Option<bool>, system_dark: bool) -> (dark: bool)
    ensures
        dark == match configured {
            Some(d) => d,
            None => system_dark,
        },
{
    match configured {
        Some(d) => d,
        None => system_dark,
    }
}

/// Whether the window stays above the others: as configured, except while one of its
/// dialogs (the file picker, the close question) is open.
pub fn window_on_top(configured: bool, dialog_open: bool) -> (on_top: bool)
    ensures
        on_top == (configured && !dialog_open),
{
    configured && !dialog_open
}

/// What the window is doing.
#[derive(PartialEq, Eq, Structural, Clone, Copy, Debug)]
pub enum AppState {
    Idle,
    Recording,
    Downloading,
    Transcribing,
    Diarizing,
    Result,
}

/// What pressing the record button does.
#[derive(PartialEq, Eq, Structural, Clone, Copy, Debug)]
pub enum RecordAction {
    /// Stop recording and transcribe what was recorded.
    StopAndTranscribe,
    /// Nothing was being recorded after all: go back to idle.
    Reset,
    /// Start recording from the selected microphone.
    StartRecording,
}

/// What pressing the record button does: while recording it stops and transcribes (or,
/// with no recorder running, goes back to idle); in any other state it starts recording.
pub fn record_button(state: AppState, recorder_running: bool) -> (a: RecordAction)
    ensures
        a == if state == AppState::Recording {
            if recorder_running {
                RecordAction::StopAndTranscribe
            } else {
                RecordAction::Reset
            }
        } else {
            RecordAction::StartRecording
        },
{
    if state == AppState::Recording {
        if recorder_running {
            RecordAction::StopAndTranscribe
        } else {
            RecordAction::Reset
        }
    } else {
        RecordAction::StartRecording
    }
}

/// The state after an attempt to start recording: recording when the microphone opened,
/// else the result view, which shows why it did not.
pub fn after_record_start(opened: bool) -> (s: AppState)
    ensures
        s == if opened { AppState::Recording } else { AppState::Result },
{
    if opened {
        AppState::Recording
    } else {
        AppState::Result
    }
}

/// The recorder device can be read only from the idle and result views.
pub fn can_open_recorder(state: AppState) -> (ok: bool)
    ensures
        ok == (state == AppState::Idle || state == AppState::Result),
{
    state == AppState::Idle || state == AppState::Result
}

/// What a transcription starts with.
#[derive(PartialEq, Eq, Structural, Clone, Copy, Debug)]
pub enum TranscriptionPlan {
    /// The model is not in the catalogue: the transcription fails.
    UnknownModel,
    /// The model's file is missing: download it first, then transcribe.
    DownloadThenTranscribe,
    /// The model's file is there: transcribe.
    Transcribe,
}

/// What a transcription starts with, given whether the model is in the catalogue and
/// whether its file was found: models are downloaded on first use.
pub fn transcription_plan(model_known: bool, model_file_found: bool) -> (p: TranscriptionPlan)
    ensures
        p == if !model_known {
            TranscriptionPlan::UnknownModel
        } else if !model_file_found {
            TranscriptionPlan::DownloadThenTranscribe
        } else {
            TranscriptionPlan::Transcribe
        },
{
    if !model_known {
        TranscriptionPlan::UnknownModel
    } else if !model_file_found {
        TranscriptionPlan::DownloadThenTranscribe
    } else {
        TranscriptionPlan::Transcribe
    }
}

/// What a transcription with model `id` starts with, looking on disk for the model's file.
/// The transcription fails exactly for a model outside the catalogue.
pub fn plan_for_model(id: &str, data_dir: Option<&Path>) -> (p: TranscriptionPlan)
    ensures
        (p == TranscriptionPlan::UnknownModel) == (lookup(id@) is None),
{
    match model_path(id, data_dir) {
        None => transcription_plan(false, false),
        Some(path) => transcription_plan(true, path_exists(path_buf_as_path(&path.to_path_buf()))),
    }
}

/// What the window holds for the caller: whether a transcription awaits confirmation,
/// whether the result and cancel callbacks are still to be run, and whether the window is
/// still open.
#[derive(Clone, Copy)]
pub struct WindowSession {
    pub pending: bool,
    pub on_result: bool,
    pub on_cancel: bool,
    pub open: bool,
}

/// What happens in the window that concerns the caller.
#[derive(PartialEq, Eq, Structural, Clone, Copy, Debug)]
pub enum WindowEvent {
    /// A transcription finished and its transcript is shown, awaiting confirmation.
    ResultReady,
    /// A new transcription started: the transcript shown so far is cleared.
    TranscriptionStarted,
    /// A transcription failed and its error is shown in place of a transcript.
    TranscriptionFailed,
    /// The user pressed Confirm.
    Confirm,
    /// The user answered the question whether to close: `true` for yes.
    CloseAnswered(bool),
}

/// Which of the caller's callbacks runs.
#[derive(PartialEq, Eq, Structural, Clone, Copy, Debug)]
pub enum CallbackRun {
    Nothing,
    Result,
    Cancel,
}

/// What answering the close question does.
#[derive(PartialEq, Eq, Structural, Clone, Copy, Debug)]
pub enum CloseAction {
    /// Run the cancel callback, if any, and hide the window.
    CancelAndHide,
    /// Keep the window open.
    StayOpen,
}

/// What answering the close question does: yes cancels and hides, no keeps the window.
pub fn close_answered(confirmed: bool) -> (a: CloseAction)
    ensures
        a == if confirmed {
            CloseAction::CancelAndHide
        } else {
            CloseAction::StayOpen
        },
{
    if confirmed {
        CloseAction::CancelAndHide
    } else {
        CloseAction::StayOpen
    }
}

/// Whether pressing Confirm hands a result to the caller: when a transcription awaits and
/// the result callback has not run yet.
pub fn confirm(pending_present: bool, result_callback_present: bool) -> (deliver: bool)
    ensures
        deliver == (pending_present && result_callback_present),
{
    pending_present && result_callback_present
}

/// The window's session as it opens.
pub open spec fn session_opened(has_cancel: bool) -> WindowSession {
    WindowSession { pending: false, on_result: true, on_cancel: has_cancel, open: true }
}

/// One event and its effect. A closed window takes no more events. A result shown makes it
/// await confirmation; a new transcription or a failure shown leaves none awaiting. Confirm takes the
/// awaiting transcription (running the result callback if it is still there) and hides
/// the window; a yes to the close question runs the cancel callback if it is still there
/// and hides the window; a no changes nothing.
pub open spec fn session_after(s: WindowSession, e: WindowEvent) -> (WindowSession, CallbackRun) {
    if !s.open {
        (s, CallbackRun::Nothing)
    } else {
        match e {
            WindowEvent::ResultReady => (WindowSession { pending: true, ..s }, CallbackRun::Nothing),
            WindowEvent::TranscriptionStarted => (WindowSession { pending: false, ..s }, CallbackRun::Nothing),
            WindowEvent::TranscriptionFailed => (WindowSession { pending: false, ..s }, CallbackRun::Nothing),
            WindowEvent::Confirm => (
                WindowSession { pending: false, on_result: s.on_result && !s.pending, open: false, ..s },
                if s.pending && s.on_result {
                    CallbackRun::Result
                } else {
                    CallbackRun::Nothing
                },
            ),
            WindowEvent::CloseAnswered(yes) => if yes {
                (
                    WindowSession { on_cancel: false, open: false, ..s },
                    if s.on_cancel {
                        CallbackRun::Cancel
                    } else {
                        CallbackRun::Nothing
                    },
                )
            } else {
                (s, CallbackRun::Nothing)
            },
        }
    }
}

/// The window's session as it opens.
pub fn open_session(has_cancel: bool) -> (s: WindowSession)
    ensures
        s == session_opened(has_cancel),
{
    WindowSession { pending: false, on_result: true, on_cancel: has_cancel, open: true }
}

/// Takes one event and says which callback, if any, runs.
pub fn session_step(s: &mut WindowSession, e: WindowEvent) -> (run: CallbackRun)
    ensures
        (*final(s), run) == session_after(*old(s), e),
{
    if !s.open {
        return CallbackRun::Nothing;
    }
    match e {
        WindowEvent::ResultReady => {
            s.pending = true;
            CallbackRun::Nothing
        },
        WindowEvent::TranscriptionStarted | WindowEvent::TranscriptionFailed => {
            s.pending = false;
            CallbackRun::Nothing
        },
        WindowEvent::Confirm => {
            let deliver = confirm(s.pending, s.on_result);
            if s.pending {
                s.on_result = false;
            }
            s.pending = false;
            s.open = false;
            if deliver {
                CallbackRun::Result
            } else {
                CallbackRun::Nothing
            }
        },
        WindowEvent::CloseAnswered(yes) => match close_answered(yes) {
            CloseAction::CancelAndHide => {
                let had = s.on_cancel;
                s.on_cancel = false;
                s.open = false;
                if had {
                    CallbackRun::Cancel
                } else {
                    CallbackRun::Nothing
                }
            },
            CloseAction::StayOpen => CallbackRun::Nothing,
        },
    }
}

/// The callbacks that run, in order, as the events `es` reach a session in state `s`.
pub open spec fn callbacks_run(s: WindowSession, es: Seq<WindowEvent>) -> Seq<CallbackRun>
    decreases es.len(),
{
    if es.len() == 0 {
        Seq::empty()
    } else {
        let (next, run) = session_after(s, es[0]);
        if run == CallbackRun::Nothing {
            callbacks_run(next, es.drop_first())
        } else {
            seq![run] + callbacks_run(next, es.drop_first())
        }
    }
}

/// Once the window is closed, no callback runs; while it is open, at most one runs.
proof fn lemma_callbacks_bounded(s: WindowSession, es: Seq<WindowEvent>)
    ensures
        !s.open ==> callbacks_run(s, es).len() == 0,
        callbacks_run(s, es).len() <= 1,
        callbacks_run(s, es).len() == 1 ==> (callbacks_run(s, es)[0] == CallbackRun::Result && s.on_result)
            || (callbacks_run(s, es)[0] == CallbackRun::Cancel && s.on_cancel),
    decreases es.len(),
{
    if es.len() > 0 {
        let (next, run) = session_after(s, es[0]);
        lemma_callbacks_bounded(next, es.drop_first());
        if run != CallbackRun::Nothing {
            assert(!next.open);
        } else if callbacks_run(next, es.drop_first()).len() == 1 {
            assert(next.on_result ==> s.on_result);
            assert(next.on_cancel ==> s.on_cancel);
        }
    }
}

/// Whatever the user does, the caller's callbacks run at most once between them: the
/// result callback only on Confirm with a transcription waiting, the cancel callback only
/// when the window is closed without confirming, never both, and neither twice.
pub proof fn lemma_one_callback_at_most(has_cancel: bool, es: Seq<WindowEvent>)
    ensures
        callbacks_run(session_opened(has_cancel), es).len() <= 1,
        callbacks_run(session_opened(has_cancel), es).len() == 1 ==> callbacks_run(session_opened(has_cancel), es)[0]
            == CallbackRun::Result || (callbacks_run(session_opened(has_cancel), es)[0] == CallbackRun::Cancel
            && has_cancel),
{
    lemma_callbacks_bounded(session_opened(has_cancel), es);
}

/// The user answered yes to the close question before pressing Confirm.
pub open spec fn closes_before_confirm(es: Seq<WindowEvent>) -> bool
    decreases es.len(),
{
    if es.len() == 0 {
        false
    } else {
        match es[0] {
            WindowEvent::CloseAnswered(yes) => if yes {
                true
            } else {
                closes_before_confirm(es.drop_first())
            },
            WindowEvent::Confirm => false,
            _ => closes_before_confirm(es.drop_first()),
        }
    }
}

/// In an open window, the cancel callback runs exactly when the close question is answered
/// yes before any Confirm, if the callback is still there.
proof fn lemma_cancel_runs(s: WindowSession, es: Seq<WindowEvent>)
    requires
        s.open,
    ensures
        callbacks_run(s, es).contains(CallbackRun::Cancel) == (s.on_cancel && closes_before_confirm(es)),
    decreases es.len(),
{
    if es.len() > 0 {
        let (next, run) = session_after(s, es[0]);
        let rest = es.drop_first();
        lemma_callbacks_bounded(next, rest);
        if next.open {
            lemma_cancel_runs(next, rest);
        }
        let c = callbacks_run(s, es);
        if run == CallbackRun::Nothing {
            assert(c == callbacks_run(next, rest));
        } else {
            assert(c =~= seq![run]);
            assert(c[0] == run);
        }
        if run == CallbackRun::Cancel {
            assert(c.contains(CallbackRun::Cancel));
        }
    }
}

/// With a cancel callback given, it runs exactly once when the user closes the window
/// (answering yes) before any Confirm, and never otherwise.
pub proof fn lemma_cancel_exactly_when_closed(es: Seq<WindowEvent>)
    ensures
        callbacks_run(session_opened(true), es).contains(CallbackRun::Cancel) == closes_before_confirm(es),
        closes_before_confirm(es) ==> callbacks_run(session_opened(true), es) == seq![CallbackRun::Cancel],
{
    lemma_cancel_runs(session_opened(true), es);
    lemma_callbacks_bounded(session_opened(true), es);
    let c = callbacks_run(session_opened(true), es);
    if closes_before_confirm(es) {
        assert(c =~= seq![CallbackRun::Cancel]);
    }
}

/// The session after the events `es`, taken one after another.
pub open spec fn session_after_all(s: WindowSession, es: Seq<WindowEvent>) -> WindowSession
    decreases es.len(),
{
    if es.len() == 0 {
        s
    } else {
        session_after(session_after_all(s, es.drop_last()), es.last()).0
    }
}

/// The last transcription event of `es` is a result shown.
pub open spec fn result_shown_last(es: Seq<WindowEvent>) -> bool
    decreases es.len(),
{
    if es.len() == 0 {
        false
    } else {
        match es.last() {
            WindowEvent::ResultReady => true,
            WindowEvent::TranscriptionStarted | WindowEvent::TranscriptionFailed | WindowEvent::Confirm => false,
            WindowEvent::CloseAnswered(_) => result_shown_last(es.drop_last()),
        }
    }
}

/// While the window is open, the result callback is still there, and a result awaits
/// confirmation exactly when the last transcription event was a result shown.
proof fn lemma_pending_is_shown(has_cancel: bool, es: Seq<WindowEvent>)
    ensures
        session_after_all(session_opened(has_cancel), es).open ==> {
            &&& session_after_all(session_opened(has_cancel), es).on_result
            &&& session_after_all(session_opened(has_cancel), es).pending == result_shown_last(es)
        },
    decreases es.len(),
{
    if es.len() > 0 {
        lemma_pending_is_shown(has_cancel, es.drop_last());
    }
}

/// Confirm hands a result to the caller exactly when the window is open and the transcript it
/// shows is a result: never the result of an earlier transcription after a later one
/// started or failed.
pub proof fn lemma_confirm_delivers_shown(has_cancel: bool, es: Seq<WindowEvent>)
    ensures
        (session_after(session_after_all(session_opened(has_cancel), es), WindowEvent::Confirm).1
            == CallbackRun::Result) == (session_after_all(session_opened(has_cancel), es).open
            && result_shown_last(es)),
{
    lemma_pending_is_shown(has_cancel, es);
}

/// A clock text reads back as the time it shows: for any minutes `m` and seconds `s`
/// below 60, the text for `60 m + s` seconds is `m`, a colon, and `s`, each printed with at
/// least two digits.
pub proof fn lemma_clock_reads_back(m: nat, s: nat)
    requires
        s < 60,
    ensures
        clock_spec(m * 60 + s) == pad2(m) + seq![':'] + pad2(s),
{
    let t = m * 60 + s;
    vstd::arithmetic::div_mod::lemma_fundamental_div_mod_converse(t as int, 60, m as int, s as int);
}

/// A duration text reads back as the length it shows: for any hours `h`, minutes `m` below
/// 60 and seconds `s` below 60, the text for `3600 h + 60 m + s` seconds is `h:m:s`, each
/// printed with at least two digits.
pub proof fn lemma_duration_reads_back(h: nat, m: nat, s: nat)
    requires
        m < 60,
        s < 60,
    ensures
        duration_spec(h * 3600 + m * 60 + s) == pad2(h) + seq![':'] + pad2(m) + seq![':'] + pad2(s),
{
    let t = h * 3600 + m * 60 + s;
    let r = m * 60 + s;
    assert(r < 3600);
    vstd::arithmetic::div_mod::lemma_fundamental_div_mod_converse(t as int, 3600, h as int, r as int);
    vstd::arithmetic::div_mod::lemma_fundamental_div_mod_converse(r as int, 60, m as int, s as int);
    assert(t % 60 == s) by {
        vstd::arithmetic::div_mod::lemma_fundamental_div_mod_converse(t as int, 60, (h * 60 + m) as int, s as int);
    }
}

/// The model in use depends only on the rows' ids and selection flags.
proof fn lemma_selected_id_same(a: Seq<ModelItemView>, b: Seq<ModelItemView>)
    requires
        a.len() == b.len(),
        forall|i: int| 0 <= i < a.len() ==> a[i].id == b[i].id && a[i].selected == b[i].selected,
    ensures
        selected_id(a) == selected_id(b),
    decreases a.len(),
{
    if a.len() > 0 {
        let a1 = a.drop_first();
        let b1 = b.drop_first();
        assert forall|i: int| 0 <= i < a1.len() implies a1[i].id == b1[i].id && a1[i].selected == b1[i].selected by {
            assert(a1[i] == a[i + 1] && b1[i] == b[i + 1]);
        }
        lemma_selected_id_same(a1, b1);
    }
}

/// A failed download changes no row's id or selection, so the model in use stays the same;
/// a successful one selects the downloaded model and no other.
pub proof fn lemma_download_end_selection(items: Seq<ModelItemView>, id: Seq<char>, ok: bool)
    ensures
        ({
            let after = Seq::new(items.len(), |i: int| download_finished(items[i], id, ok));
            &&& forall|i: int| 0 <= i < items.len() ==> #[trigger] after[i].id == items[i].id
            &&& !ok ==> forall|i: int| 0 <= i < items.len() ==> #[trigger] after[i].selected == items[i].selected
            &&& ok ==> forall|i: int| 0 <= i < items.len() ==> #[trigger] after[i].selected == (items[i].id == id)
            &&& !ok ==> selected_id(after) == selected_id(items)
        }),
{
    let after = Seq::new(items.len(), |i: int| download_finished(items[i], id, ok));
    if !ok {
        lemma_selected_id_same(after, items);
    }
}

/// `first_installed_from` finds the lowest installed index from `i` on, when there is one.
proof fn lemma_first_installed_lowest(installed: Seq<bool>, i: int)
    requires
        0 <= i,
    ensures
        match first_installed_from(installed, i) {
            Some(k) => i <= k < installed.len() && installed[k] && forall|j: int| i <= j < k ==> !installed[j],
            None => forall|j: int| i <= j < installed.len() ==> !installed[j],
        },
    decreases installed.len() - i,
{
    if i < installed.len() && !installed[i] {
        lemma_first_installed_lowest(installed, i + 1);
    }
}

/// The model the window starts with: the configured one when installed; else the saved one
/// when installed; else, when some catalogue model is installed, the one of lowest index
/// among them; else the configured one.
pub proof fn lemma_initial_model_choice(
    configured: Seq<char>,
    configured_installed: bool,
    saved: Seq<char>,
    saved_installed: bool,
    installed: Seq<bool>,
    k: int,
)
    requires
        installed.len() == catalogue().len(),
    ensures
        configured_installed ==> initial_model_spec(configured, configured_installed, saved, saved_installed, installed)
            == configured,
        !configured_installed && saved_installed ==> initial_model_spec(configured, configured_installed, saved, saved_installed, installed)
            == saved,
        !configured_installed && !saved_installed && 0 <= k < installed.len() && installed[k]
            && (forall|j: int| 0 <= j < k ==> !installed[j]) ==> initial_model_spec(
            configured,
            configured_installed,
            saved,
            saved_installed,
            installed,
        ) == catalogue()[k].id,
        !configured_installed && !saved_installed && (forall|j: int| 0 <= j < installed.len() ==> !installed[j])
            ==> initial_model_spec(configured, configured_installed, saved, saved_installed, installed) == configured,
{
    lemma_first_installed_lowest(installed, 0);
    if let Some(f) = first_installed_from(installed, 0) {
        if 0 <= k < installed.len() && installed[k] && (forall|j: int| 0 <= j < k ==> !installed[j]) {
            assert(!(f < k));
            assert(!(k < f));
        }
    }
}

/// Answering yes to the close question closes an open window, with or without a cancel
/// callback, and runs the cancel callback exactly when there is one; answering no leaves the
/// session as it was.
pub proof fn lemma_close_answer(s: WindowSession)
    requires
        s.open,
    ensures
        !session_after(s, WindowEvent::CloseAnswered(true)).0.open,
        session_after(s, WindowEvent::CloseAnswered(true)).1 == if s.on_cancel {
            CallbackRun::Cancel
        } else {
            CallbackRun::Nothing
        },
        session_after(s, WindowEvent::CloseAnswered(false)) == (s, CallbackRun::Nothing),
{
}

/// A closed window stays closed and runs no callback, whatever events follow.
pub proof fn lemma_closed_runs_nothing(s: WindowSession, e: WindowEvent, es: Seq<WindowEvent>)
    requires
        !s.open,
    ensures
        session_after(s, e) == (s, CallbackRun::Nothing),
        callbacks_run(s, es).len() == 0,
{
    lemma_callbacks_bounded(s, es);
}

} // verus!
