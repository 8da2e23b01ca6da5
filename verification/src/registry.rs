//! The section registry: the tree of named sections, with creation, renaming,
//! self-healing resolution and guarded deletion.

use vstd::prelude::*;
use crate::error::{outcome_view, WikiError};
use crate::labels::{default_section, notebook_label, root_id, section_label, untitled_label};
use crate::section::{Section, SectionView};
use crate::text::clone_optional_text;
use crate::trusted::{random_id, unix_now};
use crate::pages::{count_pages_in_section, resident_count};
use crate::store::{
    has_child, has_section, registry_wf, rooted, section_at, StoreView, WikiStore,
};

verus! {

/// The root section as it is made when a registry is first set up.
pub open spec fn root_section(now: i64) -> SectionView {
    SectionView {
        id: root_id(),
        name: notebook_label(),
        parent_id: None,
        created_at: now,
        updated_at: now,
    }
}

/// The registry that a store starts from: the stored one, or one that holds
/// only a new root where none was stored yet.
pub open spec fn seeded(stored: Option<Seq<SectionView>>, now: i64) -> Seq<SectionView> {
    match stored {
        Some(sections) => sections,
        None => seq![root_section(now)],
    }
}

/// The section that a reference resolves to: the root where none is given.
pub open spec fn ensured_id(section_id: Option<Seq<char>>) -> Seq<char> {
    match section_id {
        Some(id) => id,
        None => root_id(),
    }
}

/// The section that stands in for an identifier that the registry did not
/// know: a child of the root, named by the identifier itself.
pub open spec fn stand_in(id: Seq<char>, now: i64) -> SectionView {
    SectionView { id, name: id, parent_id: Some(root_id()), created_at: now, updated_at: now }
}

/// The registry after a reference was resolved: unchanged where the section
/// is known or none is named, else with a stand-in appended.
pub open spec fn healed(
    sections: Seq<SectionView>,
    section_id: Option<Seq<char>>,
    now: i64,
) -> Seq<SectionView> {
    match section_id {
        Some(id) => if has_section(sections, id) {
            sections
        } else {
            sections.push(stand_in(id, now))
        },
        None => sections,
    }
}

/// The display name of a section; the default label where the registry does
/// not know it.
pub open spec fn name_of(sections: Seq<SectionView>, id: Seq<char>) -> Seq<char> {
    if has_section(sections, id) {
        sections[section_at(sections, id)].name
    } else {
        section_label()
    }
}

/// The name that a section is given: the placeholder in place of an empty one.
pub open spec fn shown_name(name: Seq<char>) -> Seq<char> {
    if name.len() == 0 {
        untitled_label()
    } else {
        name
    }
}

/// In a registry without repeated identifiers, a section found at `i` is the
/// section that `section_at` speaks of.
pub proof fn lemma_section_at(sections: Seq<SectionView>, id: Seq<char>, i: int)
    requires
        forall|a: int, b: int|
            0 <= a < b < sections.len() ==> (#[trigger] sections[a]).id != (
            #[trigger] sections[b]).id,
        0 <= i < sections.len(),
        sections[i].id == id,
    ensures
        has_section(sections, id),
        section_at(sections, id) == i,
{
    let k = section_at(sections, id);
    if k < i {
        assert(sections[k].id != sections[i].id);
    } else if i < k {
        assert(sections[i].id != sections[k].id);
    }
}

/// A well-formed registry keeps the root at its head.
pub proof fn lemma_root_first(sections: Seq<SectionView>)
    requires
        registry_wf(sections),
    ensures
        sections.len() > 0,
        sections[0].id == root_id(),
        sections[0].parent_id is None,
{
    assert(rooted(sections, 0));
}

/// In a well-formed registry every parent named is itself a section.
pub proof fn lemma_parent_known(sections: Seq<SectionView>, i: int)
    requires
        registry_wf(sections),
        0 <= i < sections.len(),
        sections[i].parent_id is Some,
    ensures
        has_section(sections, sections[i].parent_id->0),
        sections[i].id != root_id(),
{
    assert(rooted(sections, i));
}

/// Appending a section with an unused identifier under a known parent keeps
/// the registry well-formed.
pub proof fn lemma_push_keeps_registry(sections: Seq<SectionView>, added: SectionView)
    requires
        registry_wf(sections),
        !has_section(sections, added.id),
        added.parent_id is Some,
        has_section(sections, added.parent_id->0),
    ensures
        registry_wf(sections.push(added)),
{
    let after = sections.push(added);
    let n = sections.len() as int;
    let r = section_at(sections, root_id());
    assert(after[r].id == root_id());
    assert forall|i: int, j: int| 0 <= i < j < after.len() implies (#[trigger] after[i]).id != (
    #[trigger] after[j]).id by {
        if j == n {
            assert(sections[i].id != added.id);
        } else {
            assert(sections[i].id != sections[j].id);
        }
    }
    assert forall|i: int| 0 <= i < after.len() implies #[trigger] rooted(after, i) by {
        if i == n {
            let p = section_at(sections, added.parent_id->0);
            assert(after[p].id == added.parent_id->0);
            assert(sections[r].id != added.id);
        } else {
            assert(rooted(sections, i));
            if sections[i].id != root_id() {
                let j = choose|j: int|
                    0 <= j < i && (#[trigger] sections[j]).id == sections[i].parent_id->0;
                assert(after[j].id == after[i].parent_id->0);
            }
        }
    }
}

/// Resolving a reference keeps the registry well-formed and makes the
/// section known.
pub proof fn lemma_healed(sections: Seq<SectionView>, section_id: Option<Seq<char>>, now: i64)
    requires
        registry_wf(sections),
    ensures
        registry_wf(healed(sections, section_id, now)),
        has_section(healed(sections, section_id, now), ensured_id(section_id)),
        forall|id: Seq<char>|
            has_section(sections, id) ==> has_section(healed(sections, section_id, now), id),
        forall|i: int|
            0 <= i < sections.len() ==> healed(sections, section_id, now)[i] == sections[i],
{
    let after = healed(sections, section_id, now);
    match section_id {
        Some(id) => {
            if !has_section(sections, id) {
                lemma_push_keeps_registry(sections, stand_in(id, now));
                assert(after[sections.len() as int].id == id);
                assert forall|other: Seq<char>| has_section(sections, other) implies has_section(
                    after,
                    other,
                ) by {
                    let k = section_at(sections, other);
                    assert(after[k].id == other);
                }
            }
        },
        None => {},
    }
}

/// Where the section with this identifier stands, if the registry knows it.
pub fn find_section(sections: &Vec<Section>, id: &String) -> (r: Option<usize>)
    ensures
        match r {
            Some(i) => i < sections.len() && sections[i as int]@.id == id@,
            None => !has_section(sections.deep_view(), id@),
        },
{
    let mut i: usize = 0;
    while i < sections.len()
        invariant
            i <= sections.len(),
            forall|k: int| 0 <= k < i ==> sections[k]@.id != id@,
        decreases sections.len() - i,
    {
        if sections[i].id == *id {
            return Some(i);
        }
        i += 1;
    }
    assert forall|k: int| 0 <= k < sections.deep_view().len() implies (
    #[trigger] sections.deep_view()[k]).id != id@ by {
        assert(sections.deep_view()[k] == sections[k]@);
    }
    None
}

/// The registry that a store starts from: the stored sections, or a new root
/// alone where no registry was stored yet.
pub fn load_sections(stored: Option<Vec<Section>>, now: i64) -> (r: Vec<Section>)
    ensures
        r.deep_view() == seeded(stored.deep_view(), now),
{
    match stored {
        Some(sections) => sections,
        None => {
            let root = Section {
                id: "root".to_owned(),
                name: "Notebook".to_owned(),
                parent_id: None,
                created_at: now,
                updated_at: now,
            };
            let mut sections: Vec<Section> = Vec::new();
            sections.push(root);
            assert(sections.deep_view() =~= seq![root_section(now)]);
            sections
        },
    }
}

/// All sections, in the order of the registry. The root is among them, at
/// the head.
pub fn list_sections(store: &WikiStore) -> (r: Vec<Section>)
    requires
        store.wf(),
    ensures
        r.deep_view() == store@.sections,
        has_section(r.deep_view(), root_id()),
        r.len() > 0 && r[0]@.id == root_id(),
{
    proof {
        lemma_root_first(store@.sections);
    }
    let mut r: Vec<Section> = Vec::new();
    let mut i: usize = 0;
    while i < store.sections.len()
        invariant
            i <= store.sections.len(),
            r.len() == i,
            forall|k: int| 0 <= k < i ==> r[k]@ == store.sections[k]@,
        decreases store.sections.len() - i,
    {
        r.push(store.sections[i].clone());
        i += 1;
    }
    assert(r.deep_view() =~= store.sections.deep_view());
    r
}

/// Resolves a section reference, never failing: no reference means the root, a
/// known section is returned as it is, and for an unknown identifier a
/// stand-in section of that identifier and name is appended under the root.
pub fn ensure_section(store: &mut WikiStore, section_id: Option<String>, now: i64) -> (r: String)
    requires
        old(store).wf(),
    ensures
        r@ == ensured_id(section_id.deep_view()),
        final(store)@ == (StoreView {
            sections: healed(old(store)@.sections, section_id.deep_view(), now),
            ..old(store)@
        }),
        final(store).wf(),
        has_section(final(store)@.sections, r@),
{
    proof {
        lemma_healed(store@.sections, section_id.deep_view(), now);
    }
    match section_id {
        None => "root".to_owned(),
        Some(target) => {
            if let Some(i) = find_section(&store.sections, &target) {
                assert(store.sections.deep_view()[i as int].id == target@);
                return target;
            }
            let stand = Section {
                id: target.clone(),
                name: target.clone(),
                parent_id: Some("root".to_owned()),
                created_at: now,
                updated_at: now,
            };
            store.sections.push(stand);
            assert(store.sections.deep_view() =~= old(store).sections.deep_view().push(
                stand_in(target@, now),
            ));
            target
        },
    }
}

/// The display name of a section, or the default label where the registry
/// does not know the section.
pub fn section_name(store: &WikiStore, section_id: &str) -> (r: String)
    requires
        store.wf(),
    ensures
        r@ == name_of(store@.sections, section_id@),
{
    let wanted: String = section_id.to_owned();
    match find_section(&store.sections, &wanted) {
        Some(i) => {
            proof {
                assert(store.sections.deep_view()[i as int] == store.sections[i as int]@);
                lemma_section_at(store@.sections, section_id@, i as int);
            }
            store.sections[i].name.clone()
        },
        None => default_section(),
    }
}

/// What creating a section gives: the new section, `NotFound` where the parent
/// is unknown, `PersistenceFailure` where the identifier offered is in use.
pub open spec fn section_created(
    sections: Seq<SectionView>,
    id: Seq<char>,
    name: Seq<char>,
    parent_id: Option<Seq<char>>,
    now: i64,
) -> Result<SectionView, WikiError> {
    let parent = ensured_id(parent_id);
    if !has_section(sections, parent) {
        Err(WikiError::NotFound)
    } else if has_section(sections, id) {
        Err(WikiError::PersistenceFailure)
    } else {
        Ok(
            SectionView {
                id,
                name: shown_name(name),
                parent_id: Some(parent),
                created_at: now,
                updated_at: now,
            },
        )
    }
}

/// The registry after a section was created: the new section stands last.
pub open spec fn with_created(
    sections: Seq<SectionView>,
    outcome: Result<SectionView, WikiError>,
) -> Seq<SectionView> {
    match outcome {
        Ok(section) => sections.push(section),
        Err(_) => sections,
    }
}

/// The store after a section was created.
pub open spec fn after_section_created(
    s: StoreView,
    id: Seq<char>,
    name: Seq<char>,
    parent_id: Option<Seq<char>>,
    now: i64,
) -> StoreView {
    StoreView {
        sections: with_created(s.sections, section_created(s.sections, id, name, parent_id, now)),
        ..s
    }
}

/// What renaming a section gives: the section under its new name, stamped
/// `now`, or `NotFound`.
pub open spec fn section_renamed(
    sections: Seq<SectionView>,
    id: Seq<char>,
    name: Seq<char>,
    now: i64,
) -> Result<SectionView, WikiError> {
    if has_section(sections, id) {
        Ok(
            SectionView {
                name: shown_name(name),
                updated_at: now,
                ..sections[section_at(sections, id)]
            },
        )
    } else {
        Err(WikiError::NotFound)
    }
}

/// The registry after a section was renamed: the section keeps its place.
pub open spec fn with_renamed(
    sections: Seq<SectionView>,
    id: Seq<char>,
    outcome: Result<SectionView, WikiError>,
) -> Seq<SectionView> {
    match outcome {
        Ok(section) => sections.update(section_at(sections, id), section),
        Err(_) => sections,
    }
}

/// Whether a section may be deleted: not the root (`InvalidOperation`), not
/// one with child sections or resident pages (`Conflict`), and only one that
/// exists (`NotFound`).
pub open spec fn section_removal(s: StoreView, id: Seq<char>) -> Result<(), WikiError> {
    if id == root_id() {
        Err(WikiError::InvalidOperation)
    } else if has_child(s.sections, id) {
        Err(WikiError::Conflict)
    } else if resident_count(s.pages, id) > 0 {
        Err(WikiError::Conflict)
    } else if !has_section(s.sections, id) {
        Err(WikiError::NotFound)
    } else {
        Ok(())
    }
}

/// The registry after the deletion of a section was asked for.
pub open spec fn without_section(s: StoreView, id: Seq<char>) -> Seq<SectionView> {
    if section_removal(s, id) is Ok {
        s.sections.remove(section_at(s.sections, id))
    } else {
        s.sections
    }
}

/// The store after the deletion of a section was asked for.
pub open spec fn after_section_removed(s: StoreView, id: Seq<char>) -> StoreView {
    StoreView { sections: without_section(s, id), ..s }
}

/// Replacing a section by one of the same identifier and parent keeps the
/// registry well-formed.
pub proof fn lemma_update_keeps_registry(sections: Seq<SectionView>, i: int, changed: SectionView)
    requires
        registry_wf(sections),
        0 <= i < sections.len(),
        changed.id == sections[i].id,
        changed.parent_id == sections[i].parent_id,
    ensures
        registry_wf(sections.update(i, changed)),
{
    let after = sections.update(i, changed);
    let r = section_at(sections, root_id());
    assert(after[r].id == root_id());
    assert forall|a: int, b: int| 0 <= a < b < after.len() implies (#[trigger] after[a]).id != (
    #[trigger] after[b]).id by {
        assert(sections[a].id != sections[b].id);
    }
    assert forall|k: int| 0 <= k < after.len() implies #[trigger] rooted(after, k) by {
        assert(rooted(sections, k));
        if sections[k].id != root_id() {
            let j = choose|j: int|
                0 <= j < k && (#[trigger] sections[j]).id == sections[k].parent_id->0;
            assert(after[j].id == after[k].parent_id->0);
        }
    }
}

/// Taking out a section that is not the root and has no child keeps the
/// registry well-formed, and takes out no other section.
pub proof fn lemma_remove_keeps_registry(sections: Seq<SectionView>, i: int)
    requires
        registry_wf(sections),
        0 <= i < sections.len(),
        sections[i].id != root_id(),
        !has_child(sections, sections[i].id),
    ensures
        registry_wf(sections.remove(i)),
        !has_section(sections.remove(i), sections[i].id),
        forall|id: Seq<char>|
            id != sections[i].id ==> (has_section(sections.remove(i), id) <==> has_section(
                sections,
                id,
            )),
{
    let after = sections.remove(i);
    let r = section_at(sections, root_id());
    let at = |k: int| if k < i { k } else { k + 1 };
    let back = |k: int| if k < i { k } else { k - 1 };
    assert(after[back(r)].id == root_id());
    assert forall|a: int, b: int| 0 <= a < b < after.len() implies (#[trigger] after[a]).id != (
    #[trigger] after[b]).id by {
        assert(sections[at(a)].id != sections[at(b)].id);
    }
    assert forall|k: int| 0 <= k < after.len() implies #[trigger] rooted(after, k) by {
        let ok = at(k);
        assert(rooted(sections, ok));
        if sections[ok].id != root_id() {
            let j = choose|j: int|
                0 <= j < ok && (#[trigger] sections[j]).id == sections[ok].parent_id->0;
            if j == i {
                assert(sections[ok].parent_id == Some(sections[i].id));
            }
            assert(after[back(j)].id == after[k].parent_id->0);
        }
    }
    if has_section(after, sections[i].id) {
        let k = section_at(after, sections[i].id);
        if at(k) < i {
            assert(sections[at(k)].id != sections[i].id);
        } else {
            assert(sections[i].id != sections[at(k)].id);
        }
    }
    assert forall|id: Seq<char>| id != sections[i].id implies (has_section(after, id)
        <==> has_section(sections, id)) by {
        if has_section(after, id) {
            let k = section_at(after, id);
            assert(sections[at(k)].id == id);
        }
        if has_section(sections, id) {
            let k = section_at(sections, id);
            assert(after[back(k)].id == id);
        }
    }
}

/// Whether some section names `id` as its parent.
fn has_child_section(sections: &Vec<Section>, id: &String) -> (r: bool)
    ensures
        r == has_child(sections.deep_view(), id@),
{
    let mut i: usize = 0;
    while i < sections.len()
        invariant
            i <= sections.len(),
            forall|k: int| 0 <= k < i ==> sections[k]@.parent_id != Some(id@),
        decreases sections.len() - i,
    {
        let child = match &sections[i].parent_id {
            Some(p) => *p == *id,
            None => false,
        };
        if child {
            assert(sections.deep_view()[i as int].parent_id == Some(id@));
            return true;
        }
        i += 1;
    }
    assert forall|k: int| 0 <= k < sections.deep_view().len() implies (
    #[trigger] sections.deep_view()[k]).parent_id != Some(id@) by {
        assert(sections.deep_view()[k] == sections[k]@);
    }
    false
}

/// Creates a section under the identifier offered. The parent defaults to the
/// root; an empty name is replaced by the placeholder. Fails with `NotFound`
/// where the parent is unknown and with `PersistenceFailure` where the
/// identifier is already in use; the registry is then unchanged.
pub fn create_section_as(
    store: &mut WikiStore,
    id: String,
    name: String,
    parent_id: Option<String>,
    now: i64,
) -> (r: Result<Section, WikiError>)
    requires
        old(store).wf(),
    ensures
        outcome_view(r) == section_created(
            old(store)@.sections,
            id@,
            name@,
            parent_id.deep_view(),
            now,
        ),
        final(store)@ == after_section_created(
            old(store)@,
            id@,
            name@,
            parent_id.deep_view(),
            now,
        ),
        r is Ok ==> !has_section(old(store)@.sections, id@) && has_section(
            final(store)@.sections,
            id@,
        ),
        final(store).wf(),
{
    let parent = match parent_id {
        Some(p) => p,
        None => "root".to_owned(),
    };
    match find_section(&store.sections, &parent) {
        None => {
            return Err(WikiError::NotFound);
        },
        Some(p) => {
            assert(store.sections.deep_view()[p as int].id == parent@);
        },
    }
    if let Some(k) = find_section(&store.sections, &id) {
        assert(store.sections.deep_view()[k as int].id == id@);
        return Err(WikiError::PersistenceFailure);
    }
    let shown = if name.as_str().is_empty() {
        "Untitled Section".to_owned()
    } else {
        name
    };
    let section = Section {
        id,
        name: shown,
        parent_id: Some(parent),
        created_at: now,
        updated_at: now,
    };
    proof {
        lemma_push_keeps_registry(store@.sections, section@);
    }
    store.sections.push(section.clone());
    assert(store.sections.deep_view() =~= old(store).sections.deep_view().push(section@));
    assert(store.sections.deep_view()[old(store).sections.len() as int].id == id@);
    Ok(section)
}

/// Creates a section under a new random identifier, stamped with the current
/// time. Whatever identifier and time were drawn, the result is that of
/// `create_section_as` with them.
pub fn create_section(store: &mut WikiStore, name: String, parent_id: Option<String>) -> (r: Result<
    Section,
    WikiError,
>)
    requires
        old(store).wf(),
    ensures
        exists|id: Seq<char>, now: i64|
            {
                &&& id.len() == 36
                &&& 0 <= now
                &&& #[trigger] section_created(
                    old(store)@.sections,
                    id,
                    name@,
                    parent_id.deep_view(),
                    now,
                ) == outcome_view(r)
            },
        final(store)@ == (StoreView {
            sections: with_created(old(store)@.sections, outcome_view(r)),
            ..old(store)@
        }),
        !has_section(old(store)@.sections, ensured_id(parent_id.deep_view())) <==> r == Err::<
            Section,
            WikiError,
        >(WikiError::NotFound),
        r is Ok ==> !has_section(old(store)@.sections, r->Ok_0@.id) && has_section(
            final(store)@.sections,
            r->Ok_0@.id,
        ),
        final(store).wf(),
{
    let id = random_id();
    let now = unix_now();
    create_section_as(store, id, name, parent_id, now)
}

/// Renames a section and stamps it `now`; an empty name is replaced by the
/// placeholder. Fails with `NotFound` where the section is unknown.
pub fn update_section_at(store: &mut WikiStore, id: String, name: String, now: i64) -> (r: Result<
    Section,
    WikiError,
>)
    requires
        old(store).wf(),
    ensures
        outcome_view(r) == section_renamed(old(store)@.sections, id@, name@, now),
        final(store)@ == (StoreView {
            sections: with_renamed(old(store)@.sections, id@, outcome_view(r)),
            ..old(store)@
        }),
        final(store).wf(),
{
    match find_section(&store.sections, &id) {
        None => Err(WikiError::NotFound),
        Some(i) => {
            proof {
                assert(store.sections.deep_view()[i as int] == store.sections[i as int]@);
                lemma_section_at(store@.sections, id@, i as int);
            }
            let shown = if name.as_str().is_empty() {
                "Untitled Section".to_owned()
            } else {
                name
            };
            let changed = Section {
                id: store.sections[i].id.clone(),
                name: shown,
                parent_id: clone_optional_text(&store.sections[i].parent_id),
                created_at: store.sections[i].created_at,
                updated_at: now,
            };
            proof {
                lemma_update_keeps_registry(store@.sections, i as int, changed@);
            }
            store.sections.set(i, changed.clone());
            assert(store.sections.deep_view() =~= old(store).sections.deep_view().update(
                i as int,
                changed@,
            ));
            Ok(changed)
        },
    }
}

/// Renames a section and stamps it with the current time. Whatever time was
/// read, the result is that of `update_section_at` with it.
pub fn update_section(store: &mut WikiStore, id: String, name: String) -> (r: Result<
    Section,
    WikiError,
>)
    requires
        old(store).wf(),
    ensures
        exists|now: i64|
            0 <= now && #[trigger] section_renamed(old(store)@.sections, id@, name@, now)
                == outcome_view(r),
        final(store)@ == (StoreView {
            sections: with_renamed(old(store)@.sections, id@, outcome_view(r)),
            ..old(store)@
        }),
        r is Ok <==> has_section(old(store)@.sections, id@),
        final(store).wf(),
{
    let now = unix_now();
    update_section_at(store, id, name, now)
}

/// Deletes a section. Fails with `InvalidOperation` for the root, with
/// `Conflict` while the section has child sections or resident pages, and
/// with `NotFound` where it is unknown; the store is then unchanged.
pub fn delete_section(store: &mut WikiStore, id: String) -> (r: Result<(), WikiError>)
    requires
        old(store).wf(),
    ensures
        r == section_removal(old(store)@, id@),
        final(store)@ == after_section_removed(old(store)@, id@),
        final(store).wf(),
{
    let root: String = "root".to_owned();
    if id == root {
        return Err(WikiError::InvalidOperation);
    }
    if has_child_section(&store.sections, &id) {
        return Err(WikiError::Conflict);
    }
    if count_pages_in_section(store, id.as_str()) > 0 {
        return Err(WikiError::Conflict);
    }
    match find_section(&store.sections, &id) {
        None => Err(WikiError::NotFound),
        Some(i) => {
            proof {
                assert(store.sections.deep_view()[i as int] == store.sections[i as int]@);
                lemma_section_at(store@.sections, id@, i as int);
                lemma_remove_keeps_registry(store@.sections, i as int);
            }
            store.sections.remove(i);
            assert(store.sections.deep_view() =~= old(store).sections.deep_view().remove(
                i as int,
            ));
            Ok(())
        },
    }
}

} // verus!
