//! What the window shows: the desktop-environment store (one entry per known
//! environment, marked installed or not) and the profile grid (profiles
//! grouped by desktop environment, each group under a header, four cards to
//! a row).
use vstd::prelude::*;
use crate::desktops::{de_count, de_list, de_table};
use crate::records::{profile_views, Profile, ProfileView};
use crate::text::{eq_ignore_ascii_case, same_ignoring_ascii_case};

verus! {

broadcast use vstd::string::group_string_axioms;

/// One entry of the desktop-environment store.
#[derive(Clone, Debug)]
pub struct DeStoreItem {
    pub name: String,
    pub meta_package: String,
    pub is_installed: bool,
    pub is_installing: bool,
    pub install_status: String,
}

/// Whether some name in `installed` is `name`, ignoring ASCII case.
pub open spec fn listed_as_installed(installed: Seq<Seq<char>>, name: Seq<char>) -> bool {
    exists|j: int| 0 <= j < installed.len() && same_ignoring_ascii_case(#[trigger] installed[j], name)
}

/// Whether any of `installed` is `name`, ignoring ASCII case.
fn any_same_ignoring_case(installed: &[String], name: &str) -> (r: bool)
    ensures
        r == listed_as_installed(crate::text::string_views(installed@), name@),
{
    let ghost views = crate::text::string_views(installed@);
    let mut j: usize = 0;
    while j < installed.len()
        invariant
            views == crate::text::string_views(installed@),
            0 <= j <= installed.len(),
            forall|k: int| 0 <= k < j ==> !same_ignoring_ascii_case(#[trigger] views[k], name@),
        decreases installed.len() - j,
    {
        if eq_ignore_ascii_case(installed[j].as_str(), name) {
            assert(views[j as int] == installed@[j as int]@);
            return true;
        }
        assert(views[j as int] == installed@[j as int]@);
        j += 1;
    }
    false
}

/// The store entries: one per known desktop environment, in table order,
/// marked installed when `installed_des` names it (ignoring ASCII case), not
/// being installed, with an empty status.
pub fn build_de_store_items(installed_des: &[String]) -> (r: Vec<DeStoreItem>)
    ensures
        r@.len() == de_count(),
        forall|i: int|
            0 <= i < r@.len() ==> {
                &&& #[trigger] r@[i].name@ == de_table()[i].name
                &&& r@[i].meta_package@ == de_table()[i].meta_package
                &&& r@[i].is_installed == listed_as_installed(
                    crate::text::string_views(installed_des@),
                    de_table()[i].name,
                )
                &&& !r@[i].is_installing
                &&& r@[i].install_status@.len() == 0
            },
{
    let list = de_list();
    let mut items: Vec<DeStoreItem> = Vec::new();
    let mut i: usize = 0;
    while i < list.len()
        invariant
            list@.len() == de_count(),
            forall|k: int| 0 <= k < list@.len() ==> #[trigger] list@[k]@ == de_table()[k],
            0 <= i <= list.len(),
            items@.len() == i,
            forall|k: int|
                0 <= k < i ==> {
                    &&& #[trigger] items@[k].name@ == de_table()[k].name
                    &&& items@[k].meta_package@ == de_table()[k].meta_package
                    &&& items@[k].is_installed == listed_as_installed(
                        crate::text::string_views(installed_des@),
                        de_table()[k].name,
                    )
                    &&& !items@[k].is_installing
                    &&& items@[k].install_status@.len() == 0
                },
        decreases list.len() - i,
    {
        assert(list@[i as int]@ == de_table()[i as int]);
        let is_installed = any_same_ignoring_case(installed_des, list[i].name);
        let ghost before = items@;
        items.push(DeStoreItem {
            name: list[i].name.to_owned(),
            meta_package: list[i].meta_package.to_owned(),
            is_installed,
            is_installing: false,
            install_status: String::new(),
        });
        assert(items@[i as int].name@ == de_table()[i as int].name);
        assert(items@[i as int].meta_package@ == de_table()[i as int].meta_package);
        assert(items@[i as int].install_status@.len() == 0);
        assert forall|k: int| 0 <= k < i implies #[trigger] items@[k] == before[k] by {}
        i += 1;
    }
    items
}

/// The position of the first profile in `ps`, from position `j` on, with the
/// given name and desktop environment; 0 when there is none.
pub open spec fn index_from(ps: Seq<ProfileView>, name: Seq<char>, de: Seq<char>, j: int) -> int
    decreases ps.len() - j,
{
    if j < 0 || j >= ps.len() {
        0
    } else if ps[j].name == name && ps[j].de == de {
        j
    } else {
        index_from(ps, name, de, j + 1)
    }
}

proof fn lemma_index_from_bounds(ps: Seq<ProfileView>, name: Seq<char>, de: Seq<char>, j: int)
    requires
        0 <= j,
    ensures
        0 <= index_from(ps, name, de, j),
        ps.len() > 0 ==> index_from(ps, name, de, j) < ps.len(),
    decreases ps.len() - j,
{
    if j < ps.len() && !(ps[j].name == name && ps[j].de == de) {
        lemma_index_from_bounds(ps, name, de, j + 1);
    }
}

proof fn lemma_index_from_finds(ps: Seq<ProfileView>, i: int, j: int)
    requires
        0 <= j <= i < ps.len(),
    ensures
        j <= index_from(ps, ps[i].name, ps[i].de, j) <= i,
        ps[index_from(ps, ps[i].name, ps[i].de, j)].name == ps[i].name,
        ps[index_from(ps, ps[i].name, ps[i].de, j)].de == ps[i].de,
    decreases i - j,
{
    if !(ps[j].name == ps[i].name && ps[j].de == ps[i].de) {
        lemma_index_from_finds(ps, i, j + 1);
    }
}

/// The card of a profile refers to a profile of the list with the same name
/// and desktop environment (the first such one), so restoring or deleting
/// through a card acts on that profile.
pub proof fn law_card_refers_to_same_profile(ps: Seq<ProfileView>, i: int)
    requires
        0 <= i < ps.len(),
    ensures
        0 <= index_from(ps, ps[i].name, ps[i].de, 0) <= i,
        ps[index_from(ps, ps[i].name, ps[i].de, 0)].name == ps[i].name,
        ps[index_from(ps, ps[i].name, ps[i].de, 0)].de == ps[i].de,
{
    lemma_index_from_finds(ps, i, 0);
}

/// The position of the first profile with the same name and desktop
/// environment as `target`; 0 when there is none.
pub fn find_profile_index(profiles: &[Profile], target: &Profile) -> (r: usize)
    ensures
        r == index_from(profile_views(profiles@), target.name@, target.de@, 0),
{
    let ghost ps = profile_views(profiles@);
    let mut j: usize = 0;
    while j < profiles.len()
        invariant
            ps == profile_views(profiles@),
            0 <= j <= profiles.len(),
            index_from(ps, target.name@, target.de@, 0) == index_from(ps, target.name@, target.de@, j as int),
        decreases profiles.len() - j,
    {
        assert(ps[j as int] == profiles@[j as int]@);
        if profiles[j].name == target.name && profiles[j].de == target.de {
            return j;
        }
        j += 1;
    }
    0
}

/// One item of the profile grid: a section header (`item_type` 0, naming a
/// desktop environment) or a profile card (`item_type` 1), with its place in
/// the grid. `profile_index` is the card's position in the profile list
/// (-1 for headers). The thumbnail image itself is loaded by the front end.
#[derive(Clone, Debug)]
pub struct DisplayItem {
    pub item_type: i32,
    pub header_text: String,
    pub grid_row: i32,
    pub grid_col: i32,
    pub profile_name: String,
    pub profile_de: String,
    pub has_thumbnail: bool,
    pub profile_created: String,
    pub profile_index: i32,
}

/// The abstract content of a [`DisplayItem`].
pub struct DisplayItemView {
    pub item_type: int,
    pub header_text: Seq<char>,
    pub grid_row: int,
    pub grid_col: int,
    pub profile_name: Seq<char>,
    pub profile_de: Seq<char>,
    pub has_thumbnail: bool,
    pub profile_created: Seq<char>,
    pub profile_index: int,
}

impl View for DisplayItem {
    type V = DisplayItemView;

    open spec fn view(&self) -> DisplayItemView {
        DisplayItemView {
            item_type: self.item_type as int,
            header_text: self.header_text@,
            grid_row: self.grid_row as int,
            grid_col: self.grid_col as int,
            profile_name: self.profile_name@,
            profile_de: self.profile_de@,
            has_thumbnail: self.has_thumbnail,
            profile_created: self.profile_created@,
            profile_index: self.profile_index as int,
        }
    }
}

/// The abstract contents of a sequence of grid items.
pub open spec fn display_item_views(v: Seq<DisplayItem>) -> Seq<DisplayItemView> {
    v.map_values(|d: DisplayItem| d@)
}

/// The number of cards in one row of the grid.
pub open spec fn grid_columns() -> int {
    4
}

/// Whether `names` already holds `de`, ignoring ASCII case.
pub open spec fn named_before(names: Seq<Seq<char>>, de: Seq<char>) -> bool {
    exists|j: int| 0 <= j < names.len() && same_ignoring_ascii_case(#[trigger] names[j], de)
}

/// The desktop environments of the profiles, each once (ignoring ASCII
/// case), in the order of their first appearance, spelled as at that
/// first appearance: the sections of the grid.
pub open spec fn section_names(ps: Seq<ProfileView>) -> Seq<Seq<char>>
    decreases ps.len(),
{
    if ps.len() == 0 {
        seq![]
    } else {
        let prev = section_names(ps.drop_last());
        if named_before(prev, ps.last().de) {
            prev
        } else {
            prev.push(ps.last().de)
        }
    }
}

/// The positions `0..n`.
pub open spec fn positions(n: nat) -> Seq<int> {
    Seq::new(n, |i: int| i)
}

/// Whether the profile at a position belongs to the section `name`.
pub open spec fn in_section(ps: Seq<ProfileView>, name: Seq<char>) -> spec_fn(int) -> bool {
    |i: int| same_ignoring_ascii_case(ps[i].de, name)
}

/// The positions, in order, of the profiles in the section `name`: those
/// whose desktop environment is `name`, ignoring ASCII case.
pub open spec fn section_members(ps: Seq<ProfileView>, name: Seq<char>) -> Seq<int> {
    positions(ps.len()).filter(in_section(ps, name))
}

/// The header of section `name`, placed at `row`.
pub open spec fn header_item(name: Seq<char>, row: int) -> DisplayItemView {
    DisplayItemView {
        item_type: 0,
        header_text: name,
        grid_row: row,
        grid_col: 0,
        profile_name: seq![],
        profile_de: seq![],
        has_thumbnail: false,
        profile_created: seq![],
        profile_index: -1,
    }
}

/// The card of the profile at position `i`, placed at `row`, `col`.
pub open spec fn card_item(ps: Seq<ProfileView>, i: int, row: int, col: int) -> DisplayItemView {
    DisplayItemView {
        item_type: 1,
        header_text: seq![],
        grid_row: row,
        grid_col: col,
        profile_name: ps[i].name,
        profile_de: ps[i].de,
        has_thumbnail: ps[i].thumbnail.len() > 0,
        profile_created: ps[i].created,
        profile_index: index_from(ps, ps[i].name, ps[i].de, 0),
    }
}

/// The cards of the profiles at positions `members`, four to a row from `row` on.
pub open spec fn section_cards(ps: Seq<ProfileView>, members: Seq<int>, row: int) -> Seq<DisplayItemView> {
    Seq::new(
        members.len(),
        |k: int| card_item(ps, members[k], row + k / grid_columns(), k % grid_columns()),
    )
}

/// The rows taken by a section of `m` cards: the header's and those of the cards.
pub open spec fn section_height(m: int) -> int {
    1 + (m + grid_columns() - 1) / grid_columns()
}

/// The items of sections `g..` of `names`, the first starting at `row`.
pub open spec fn sections_from(ps: Seq<ProfileView>, names: Seq<Seq<char>>, g: int, row: int) -> Seq<
    DisplayItemView,
>
    decreases names.len() - g,
{
    if g < 0 || g >= names.len() {
        seq![]
    } else {
        let m = section_members(ps, names[g]);
        seq![header_item(names[g], row)] + section_cards(ps, m, row + 1) + sections_from(
            ps,
            names,
            g + 1,
            row + section_height(m.len() as int),
        )
    }
}

/// The profile grid: for each section in turn, its header and then its cards.
pub open spec fn display_items(ps: Seq<ProfileView>) -> Seq<DisplayItemView> {
    sections_from(ps, section_names(ps), 0, 0)
}

/// No two section names are the same, ignoring ASCII case.
pub open spec fn names_distinct(names: Seq<Seq<char>>) -> bool {
    forall|a: int, b: int|
        0 <= a < names.len() && 0 <= b < names.len() && a != b ==> !same_ignoring_ascii_case(
            #[trigger] names[a],
            #[trigger] names[b],
        )
}

/// Facts about the sections: there are no more of them than profiles, their
/// names are distinct, each is the desktop environment of some profile, and
/// each profile's desktop environment names one of them.
pub proof fn lemma_section_names(ps: Seq<ProfileView>)
    ensures
        section_names(ps).len() <= ps.len(),
        names_distinct(section_names(ps)),
        forall|g: int|
            0 <= g < section_names(ps).len() ==> exists|i: int|
                0 <= i < ps.len() && ps[i].de == #[trigger] section_names(ps)[g],
        forall|i: int| 0 <= i < ps.len() ==> named_before(section_names(ps), #[trigger] ps[i].de),
    decreases ps.len(),
{
    if ps.len() > 0 {
        let pre = ps.drop_last();
        lemma_section_names(pre);
        let prev = section_names(pre);
        let names = section_names(ps);
        assert forall|g: int| 0 <= g < names.len() implies exists|i: int|
            0 <= i < ps.len() && ps[i].de == #[trigger] names[g] by {
            if g < prev.len() {
                let i = choose|i: int| 0 <= i < pre.len() && pre[i].de == prev[g];
                assert(ps[i].de == names[g]);
            } else {
                assert(ps[ps.len() - 1].de == names[g]);
            }
        }
        assert forall|i: int| 0 <= i < ps.len() implies named_before(names, #[trigger] ps[i].de) by {
            if i < ps.len() - 1 {
                assert(ps[i] == pre[i]);
                assert(named_before(prev, pre[i].de));
                let j = choose|j: int| 0 <= j < prev.len() && same_ignoring_ascii_case(#[trigger] prev[j], pre[i].de);
                assert(names[j] == prev[j]);
            } else if named_before(prev, ps.last().de) {
                let j = choose|j: int| 0 <= j < prev.len() && same_ignoring_ascii_case(#[trigger] prev[j], ps.last().de);
                assert(names[j] == prev[j]);
            } else {
                assert(names[prev.len() as int] == ps.last().de);
            }
        }
    }
}

/// The positions of the profiles in section `name`.
fn members_of(profiles: &[Profile], name: &str) -> (r: Vec<usize>)
    ensures
        r@.map_values(|x: usize| x as int) == section_members(profile_views(profiles@), name@),
        forall|k: int| 0 <= k < r@.len() ==> #[trigger] r@[k] < profiles@.len(),
{
    let ghost ps = profile_views(profiles@);
    let ghost all = positions(ps.len());
    let ghost pred = in_section(ps, name@);
    let mut r: Vec<usize> = Vec::new();
    let mut j: usize = 0;
    while j < profiles.len()
        invariant
            ps == profile_views(profiles@),
            all == positions(ps.len()),
            pred == in_section(ps, name@),
            0 <= j <= profiles.len(),
            r@.map_values(|x: usize| x as int) == all.take(j as int).filter(pred),
            forall|k: int| 0 <= k < r@.len() ==> #[trigger] r@[k] < j,
        decreases profiles.len() - j,
    {
        assert(all.take(j + 1).drop_last() =~= all.take(j as int));
        assert(all.take(j + 1).last() == j);
        assert(ps[j as int] == profiles@[j as int]@);
        reveal(Seq::filter);
        if eq_ignore_ascii_case(profiles[j].de.as_str(), name) {
            r.push(j);
            assert(r@.map_values(|x: usize| x as int) =~= all.take(j + 1).filter(pred));
        } else {
            assert(r@.map_values(|x: usize| x as int) =~= all.take(j + 1).filter(pred));
        }
        j += 1;
    }
    assert(all.take(j as int) =~= all);
    r
}

/// The section names of `profiles`, computed as the grid is laid out.
fn section_names_of(profiles: &[Profile]) -> (r: Vec<String>)
    ensures
        crate::text::string_views(r@) == section_names(profile_views(profiles@)),
{
    let ghost ps = profile_views(profiles@);
    let mut seen: Vec<String> = Vec::new();
    let mut i: usize = 0;
    while i < profiles.len()
        invariant
            ps == profile_views(profiles@),
            0 <= i <= profiles.len(),
            crate::text::string_views(seen@) == section_names(ps.take(i as int)),
        decreases profiles.len() - i,
    {
        assert(ps.take(i + 1).drop_last() =~= ps.take(i as int));
        assert(ps.take(i + 1).last() == profiles@[i as int]@);
        if !any_same_ignoring_case(seen.as_slice(), profiles[i].de.as_str()) {
            seen.push(profiles[i].de.clone());
            assert(crate::text::string_views(seen@) =~= section_names(ps.take(i + 1)));
        }
        i += 1;
    }
    assert(ps.take(i as int) =~= ps);
    seen
}

/// Whether the profile at a position belongs to one of the sections `0..g`.
pub open spec fn covered_by(ps: Seq<ProfileView>, names: Seq<Seq<char>>, g: int) -> spec_fn(int) -> bool {
    |i: int| exists|h: int| 0 <= h < g && same_ignoring_ascii_case(ps[i].de, #[trigger] names[h])
}

/// The number of cards in sections `0..g`.
pub open spec fn covered_total(ps: Seq<ProfileView>, names: Seq<Seq<char>>, g: int) -> int
    decreases g,
{
    if g <= 0 {
        0
    } else {
        covered_total(ps, names, g - 1) + section_members(ps, names[g - 1]).len()
    }
}

proof fn lemma_filter_disjoint_len<A>(s: Seq<A>, p: spec_fn(A) -> bool, q: spec_fn(A) -> bool)
    requires
        forall|x: A| !(#[trigger] p(x) && q(x)),
    ensures
        s.filter(p).len() + s.filter(q).len() == s.filter(|x: A| p(x) || q(x)).len(),
    decreases s.len(),
{
    reveal(Seq::filter);
    if s.len() > 0 {
        lemma_filter_disjoint_len(s.drop_last(), p, q);
    }
}

proof fn lemma_filter_none<A>(s: Seq<A>, p: spec_fn(A) -> bool)
    requires
        forall|x: A| !#[trigger] p(x),
    ensures
        s.filter(p).len() == 0,
    decreases s.len(),
{
    reveal(Seq::filter);
    if s.len() > 0 {
        lemma_filter_none(s.drop_last(), p);
    }
}

proof fn lemma_filter_all<A>(s: Seq<A>, p: spec_fn(A) -> bool)
    requires
        forall|i: int| 0 <= i < s.len() ==> p(#[trigger] s[i]),
    ensures
        s.filter(p) == s,
    decreases s.len(),
{
    reveal(Seq::filter);
    if s.len() > 0 {
        let pre = s.drop_last();
        assert forall|i: int| 0 <= i < pre.len() implies p(#[trigger] pre[i]) by {
            assert(pre[i] == s[i]);
        }
        lemma_filter_all(pre, p);
        assert(p(s[s.len() - 1]));
        assert(pre.push(s.last()) =~= s);
    }
}

/// The cards of sections `0..g` are exactly the profiles those sections cover.
proof fn lemma_covered_total(ps: Seq<ProfileView>, names: Seq<Seq<char>>, g: int)
    requires
        names_distinct(names),
        0 <= g <= names.len(),
    ensures
        covered_total(ps, names, g) == positions(ps.len()).filter(covered_by(ps, names, g)).len(),
        covered_total(ps, names, g) <= ps.len(),
    decreases g,
{
    let all = positions(ps.len());
    if g == 0 {
        lemma_filter_none(all, covered_by(ps, names, 0));
    } else {
        lemma_covered_total(ps, names, g - 1);
        let p = covered_by(ps, names, g - 1);
        let q = in_section(ps, names[g - 1]);
        assert forall|x: int| !(#[trigger] p(x) && q(x)) by {
            if p(x) && q(x) {
                let h = choose|h: int| 0 <= h < g - 1 && same_ignoring_ascii_case(ps[x].de, #[trigger] names[h]);
                assert(same_ignoring_ascii_case(names[h], names[g - 1]));
            }
        }
        lemma_filter_disjoint_len(all, p, q);
        assert forall|x: int| #[trigger] covered_by(ps, names, g)(x) == (p(x) || q(x)) by {
            if covered_by(ps, names, g)(x) {
                let h = choose|h: int| 0 <= h < g && same_ignoring_ascii_case(ps[x].de, #[trigger] names[h]);
                if h < g - 1 {
                    assert(p(x));
                }
            }
            if q(x) {
                assert(same_ignoring_ascii_case(ps[x].de, names[g - 1]));
            }
        }
        assert(covered_by(ps, names, g) =~= (|x: int| p(x) || q(x)));
    }
    all.lemma_filter_len(covered_by(ps, names, g));
}

/// The grid items of `profiles`: the profiles grouped into sections by
/// desktop environment (ignoring ASCII case, in order of first appearance);
/// each section a header row followed by its cards, four to a row, in
/// profile order.
pub fn build_display_items(profiles: &[Profile]) -> (r: Vec<DisplayItem>)
    requires
        profiles@.len() < 0x4000_0000,
    ensures
        display_item_views(r@) == display_items(profile_views(profiles@)),
{
    let ghost ps = profile_views(profiles@);
    if profiles.is_empty() {
        let r: Vec<DisplayItem> = Vec::new();
        assert(display_item_views(r@) =~= display_items(ps));
        return r;
    }
    let seen = section_names_of(profiles);
    let ghost names = section_names(ps);
    proof {
        lemma_section_names(ps);
    }
    let mut items: Vec<DisplayItem> = Vec::new();
    let mut row_counter: i32 = 0;
    let cols: usize = 4;
    let mut g: usize = 0;
    assert(display_item_views(items@) + sections_from(ps, names, 0, 0) =~= display_items(ps));
    while g < seen.len()
        invariant
            ps == profile_views(profiles@),
            profiles@.len() < 0x4000_0000,
            cols == 4,
            crate::text::string_views(seen@) == names,
            names == section_names(ps),
            names_distinct(names),
            names.len() <= ps.len(),
            forall|h: int|
                0 <= h < names.len() ==> exists|i: int|
                    0 <= i < ps.len() && ps[i].de == #[trigger] names[h],
            0 <= g <= seen.len(),
            display_item_views(items@) + sections_from(ps, names, g as int, row_counter as int)
                == display_items(ps),
            0 <= row_counter <= g + covered_total(ps, names, g as int),
        decreases seen.len() - g,
    {
        let group = members_of(profiles, seen[g].as_str());
        let ghost members = section_members(ps, names[g as int]);
        proof {
            assert(seen@[g as int]@ == names[g as int]);
            lemma_covered_total(ps, names, g + 1);
            let i = choose|i: int| 0 <= i < ps.len() && ps[i].de == #[trigger] names[g as int];
            let all = positions(ps.len());
            assert(all[i] == i);
            assert(in_section(ps, names[g as int])(all[i]));
            all.lemma_filter_contains(in_section(ps, names[g as int]), i);
            assert(group@.map_values(|x: usize| x as int).len() == group@.len());
        }
        if !group.is_empty() {
            let ghost start = row_counter as int;
            let ghost before = display_item_views(items@);
            let ghost cards = section_cards(ps, members, start + 1);
            items.push(DisplayItem {
                item_type: 0,
                header_text: seen[g].clone(),
                grid_row: row_counter,
                grid_col: 0,
                profile_name: String::new(),
                profile_de: String::new(),
                has_thumbnail: false,
                profile_created: String::new(),
                profile_index: -1,
            });
            row_counter += 1;
            assert(display_item_views(items@) =~= before + seq![header_item(names[g as int], start)] + cards.take(0));
            let mut k: usize = 0;
            while k < group.len()
                invariant
                    ps == profile_views(profiles@),
                    profiles@.len() < 0x4000_0000,
                    cols == 4,
                    group@.map_values(|x: usize| x as int) == members,
                    forall|j: int| 0 <= j < group@.len() ==> #[trigger] group@[j] < profiles@.len(),
                    cards == section_cards(ps, members, start + 1),
                    row_counter == start + 1,
                    0 <= start <= g + covered_total(ps, names, g as int),
                    covered_total(ps, names, g + 1) <= ps.len(),
                    covered_total(ps, names, g + 1) == covered_total(ps, names, g as int) + members.len(),
                    g < names.len(),
                    names.len() <= ps.len(),
                    0 <= k <= group.len(),
                    display_item_views(items@) == before + seq![header_item(names[g as int], start)] + cards.take(k as int),
                decreases group.len() - k,
            {
                let idx = group[k];
                assert(members[k as int] == idx as int);
                let p = &profiles[idx];
                assert(ps[idx as int] == profiles@[idx as int]@);
                let pi = find_profile_index(profiles, p);
                proof {
                    lemma_index_from_bounds(ps, p.name@, p.de@, 0);
                }
                let ghost prev = display_item_views(items@);
                items.push(DisplayItem {
                    item_type: 1,
                    header_text: String::new(),
                    grid_row: row_counter + (k / cols) as i32,
                    grid_col: (k % cols) as i32,
                    profile_name: p.name.clone(),
                    profile_de: p.de.clone(),
                    has_thumbnail: !p.thumbnail.as_str().is_empty(),
                    profile_created: p.created.clone(),
                    profile_index: pi as i32,
                });
                assert(display_item_views(items@) =~= prev.push(cards[k as int]));
                assert(cards.take(k + 1) =~= cards.take(k as int).push(cards[k as int]));
                k += 1;
            }
            assert(cards.take(k as int) =~= cards);
            row_counter += ((group.len() + cols - 1) / cols) as i32;
            assert(sections_from(ps, names, g as int, start) == seq![header_item(names[g as int], start)] + cards
                + sections_from(ps, names, g + 1, start + section_height(members.len() as int)));
        }
        g += 1;
    }
    assert(sections_from(ps, names, g as int, row_counter as int) =~= Seq::<DisplayItemView>::empty());
    assert(display_item_views(items@) =~= display_items(ps));
    items
}

proof fn lemma_sections_len(ps: Seq<ProfileView>, names: Seq<Seq<char>>, g: int, row: int)
    requires
        0 <= g <= names.len(),
    ensures
        sections_from(ps, names, g, row).len() == (names.len() - g) + covered_total(
            ps,
            names,
            names.len() as int,
        ) - covered_total(ps, names, g),
    decreases names.len() - g,
{
    if g < names.len() {
        let m = section_members(ps, names[g]);
        lemma_sections_len(ps, names, g + 1, row + section_height(m.len() as int));
        lemma_covered_total_step(ps, names, g + 1, names.len() as int);
    }
}

proof fn lemma_covered_total_step(ps: Seq<ProfileView>, names: Seq<Seq<char>>, g: int, top: int)
    requires
        1 <= g <= top,
    ensures
        covered_total(ps, names, top) - covered_total(ps, names, g - 1) == section_members(
            ps,
            names[g - 1],
        ).len() + covered_total(ps, names, top) - covered_total(ps, names, g),
{
}

/// Whether some section of the grid holds the profile at position `i`.
pub open spec fn in_some_section(ps: Seq<ProfileView>, i: int) -> bool {
    exists|g: int|
        0 <= g < section_names(ps).len() && #[trigger] section_members(
            ps,
            section_names(ps)[g],
        ).contains(i)
}

/// Every profile belongs to exactly one section of the grid: some section
/// holds its position, and no two sections share a position.
pub proof fn law_sections_partition_profiles(ps: Seq<ProfileView>)
    ensures
        forall|i: int| 0 <= i < ps.len() ==> #[trigger] in_some_section(ps, i),
        forall|i: int, g1: int, g2: int|
            0 <= g1 < section_names(ps).len() && 0 <= g2 < section_names(ps).len()
                && #[trigger] section_members(ps, section_names(ps)[g1]).contains(i)
                && #[trigger] section_members(ps, section_names(ps)[g2]).contains(i) ==> g1 == g2,
{
    lemma_section_names(ps);
    let names = section_names(ps);
    let all = positions(ps.len());
    assert forall|i: int| 0 <= i < ps.len() implies #[trigger] in_some_section(ps, i) by {
        assert(named_before(names, ps[i].de));
        let g = choose|g: int| 0 <= g < names.len() && same_ignoring_ascii_case(#[trigger] names[g], ps[i].de);
        assert(all[i] == i);
        all.lemma_filter_contains(in_section(ps, names[g]), i);
        assert(section_members(ps, names[g]).contains(i));
    }
    assert forall|i: int, g1: int, g2: int|
        0 <= g1 < names.len() && 0 <= g2 < names.len()
            && #[trigger] section_members(ps, names[g1]).contains(i)
            && #[trigger] section_members(ps, names[g2]).contains(i) implies g1 == g2 by {
        let k1 = choose|k: int| 0 <= k < section_members(ps, names[g1]).len() && section_members(ps, names[g1])[k] == i;
        let k2 = choose|k: int| 0 <= k < section_members(ps, names[g2]).len() && section_members(ps, names[g2])[k] == i;
        all.lemma_filter_pred(in_section(ps, names[g1]), k1);
        all.lemma_filter_pred(in_section(ps, names[g2]), k2);
        assert(same_ignoring_ascii_case(names[g1], names[g2]));
    }
}

/// The grid has one header per section and one card per profile.
pub proof fn law_display_item_count(ps: Seq<ProfileView>)
    ensures
        display_items(ps).len() == section_names(ps).len() + ps.len(),
{
    lemma_section_names(ps);
    let names = section_names(ps);
    let n = names.len() as int;
    lemma_sections_len(ps, names, 0, 0);
    lemma_covered_total(ps, names, n);
    let all = positions(ps.len());
    assert forall|i: int| 0 <= i < all.len() implies #[trigger] covered_by(ps, names, n)(all[i]) by {
        assert(all[i] == i);
        assert(named_before(names, ps[i].de));
        let g = choose|g: int| 0 <= g < names.len() && same_ignoring_ascii_case(#[trigger] names[g], ps[i].de);
        assert(same_ignoring_ascii_case(ps[i].de, names[g]));
    }
    lemma_filter_all(all, covered_by(ps, names, n));
}

/// No two section headers name the same desktop environment (ignoring ASCII
/// case), and there are never more sections than profiles.
pub proof fn law_section_headers_distinct(ps: Seq<ProfileView>)
    ensures
        names_distinct(section_names(ps)),
        section_names(ps).len() <= ps.len(),
{
    lemma_section_names(ps);
}

proof fn lemma_sections_shape(ps: Seq<ProfileView>, names: Seq<Seq<char>>, g: int, row: int)
    requires
        0 <= g,
    ensures
        forall|k: int|
            0 <= k < sections_from(ps, names, g, row).len() ==> {
                let it = #[trigger] sections_from(ps, names, g, row)[k];
                &&& 0 <= it.grid_col < grid_columns()
                &&& it.grid_row >= row
                &&& (it.item_type == 0 || it.item_type == 1)
                &&& (it.item_type == 0 ==> it.grid_col == 0 && it.profile_index == -1)
            },
    decreases names.len() - g,
{
    if g < names.len() {
        let m = section_members(ps, names[g]);
        let next = row + section_height(m.len() as int);
        lemma_sections_shape(ps, names, g + 1, next);
        let head = seq![header_item(names[g], row)] + section_cards(ps, m, row + 1);
        let all = sections_from(ps, names, g, row);
        assert(all == head + sections_from(ps, names, g + 1, next));
        assert forall|k: int| 0 <= k < all.len() implies {
            let it = #[trigger] all[k];
            &&& 0 <= it.grid_col < grid_columns()
            &&& it.grid_row >= row
            &&& (it.item_type == 0 || it.item_type == 1)
            &&& (it.item_type == 0 ==> it.grid_col == 0 && it.profile_index == -1)
        } by {
            if k == 0 {
                assert(all[k] == header_item(names[g], row));
            } else if k < head.len() {
                assert(all[k] == section_cards(ps, m, row + 1)[k - 1]);
            } else {
                assert(all[k] == sections_from(ps, names, g + 1, next)[k - head.len()]);
            }
        }
    }
}

/// Every item of the grid is a header or a card, lies in one of the grid's
/// four columns and in a row from 0 on; headers start their row (column 0)
/// and stand for no profile.
pub proof fn law_grid_shape(ps: Seq<ProfileView>)
    ensures
        forall|k: int|
            0 <= k < display_items(ps).len() ==> {
                let it = #[trigger] display_items(ps)[k];
                &&& 0 <= it.grid_col < 4
                &&& it.grid_row >= 0
                &&& (it.item_type == 0 || it.item_type == 1)
                &&& (it.item_type == 0 ==> it.grid_col == 0 && it.profile_index == -1)
            },
{
    lemma_sections_shape(ps, section_names(ps), 0, 0);
}

/// Whether the grid item `it` is a card showing the profile at position `i`
/// of `ps`: its name, desktop environment, creation time and thumbnail flag,
/// with a list index pointing at a profile of the same name and desktop
/// environment.
pub open spec fn shows_profile(ps: Seq<ProfileView>, it: DisplayItemView, i: int) -> bool {
    &&& 0 <= i < ps.len()
    &&& it.profile_name == ps[i].name
    &&& it.profile_de == ps[i].de
    &&& it.profile_created == ps[i].created
    &&& it.has_thumbnail == (ps[i].thumbnail.len() > 0)
    &&& 0 <= it.profile_index <= i
    &&& ps[it.profile_index].name == ps[i].name
    &&& ps[it.profile_index].de == ps[i].de
}

proof fn lemma_sections_show_profiles(ps: Seq<ProfileView>, names: Seq<Seq<char>>, g: int, row: int)
    requires
        0 <= g,
    ensures
        forall|k: int|
            0 <= k < sections_from(ps, names, g, row).len() && (#[trigger] sections_from(ps, names, g, row)[k]).item_type
                == 1 ==> exists|i: int| shows_profile(ps, sections_from(ps, names, g, row)[k], i),
    decreases names.len() - g,
{
    if g < names.len() {
        let m = section_members(ps, names[g]);
        let next = row + section_height(m.len() as int);
        lemma_sections_show_profiles(ps, names, g + 1, next);
        let cards = section_cards(ps, m, row + 1);
        let head = seq![header_item(names[g], row)] + cards;
        let all = sections_from(ps, names, g, row);
        assert(all == head + sections_from(ps, names, g + 1, next));
        assert forall|k: int| 0 <= k < all.len() && (#[trigger] all[k]).item_type == 1 implies exists|i: int|
            shows_profile(ps, all[k], i) by {
            if k == 0 {
                assert(all[k] == header_item(names[g], row));
            } else if k < head.len() {
                let c = k - 1;
                assert(all[k] == cards[c]);
                let i = m[c];
                assert(m.contains(i));
                positions(ps.len()).lemma_filter_contains_rev(in_section(ps, names[g]), i);
                let j = choose|j: int| 0 <= j < positions(ps.len()).len() && positions(ps.len())[j] == i;
                assert(0 <= i < ps.len());
                law_card_refers_to_same_profile(ps, i);
                assert(shows_profile(ps, all[k], i));
            } else {
                assert(all[k] == sections_from(ps, names, g + 1, next)[k - head.len()]);
            }
        }
    }
}

/// Every card of the profile grid shows one profile of the list as it is:
/// its name, desktop environment, creation time and whether it has a
/// thumbnail, and its list index points at a profile with that name and
/// desktop environment.
pub proof fn law_cards_show_their_profile(ps: Seq<ProfileView>)
    ensures
        forall|k: int|
            0 <= k < display_items(ps).len() && (#[trigger] display_items(ps)[k]).item_type == 1 ==> exists|i: int|
                0 <= i < ps.len() && display_items(ps)[k].profile_name == ps[i].name
                    && display_items(ps)[k].profile_de == ps[i].de
                    && display_items(ps)[k].profile_created == ps[i].created
                    && display_items(ps)[k].has_thumbnail == (ps[i].thumbnail.len() > 0)
                    && 0 <= display_items(ps)[k].profile_index <= i
                    && ps[display_items(ps)[k].profile_index].name == ps[i].name
                    && ps[display_items(ps)[k].profile_index].de == ps[i].de,
{
    lemma_sections_show_profiles(ps, section_names(ps), 0, 0);
    assert forall|k: int|
        0 <= k < display_items(ps).len() && (#[trigger] display_items(ps)[k]).item_type == 1 implies exists|i: int|
            0 <= i < ps.len() && display_items(ps)[k].profile_name == ps[i].name
                && display_items(ps)[k].profile_de == ps[i].de
                && display_items(ps)[k].profile_created == ps[i].created
                && display_items(ps)[k].has_thumbnail == (ps[i].thumbnail.len() > 0)
                && 0 <= display_items(ps)[k].profile_index <= i
                && ps[display_items(ps)[k].profile_index].name == ps[i].name
                && ps[display_items(ps)[k].profile_index].de == ps[i].de by {
        let i = choose|i: int| shows_profile(ps, display_items(ps)[k], i);
        assert(shows_profile(ps, display_items(ps)[k], i));
    }
}

/// How a grid item stands relative to the item before it: a header opens a
/// row below everything before it; the first card of a section stands in
/// column 0 of the row under its header; any other card stands in the next
/// column of the same row, or, after a full row, in column 0 of the next row.
pub open spec fn follows_in_grid(a: DisplayItemView, b: DisplayItemView) -> bool {
    if b.item_type == 0 {
        b.grid_row > a.grid_row
    } else if a.item_type == 0 {
        b.grid_row == a.grid_row + 1 && b.grid_col == 0
    } else if a.grid_col + 1 < 4 {
        b.grid_row == a.grid_row && b.grid_col == a.grid_col + 1
    } else {
        b.grid_row == a.grid_row + 1 && b.grid_col == 0
    }
}

proof fn lemma_card_step(c: int)
    requires
        0 <= c,
    ensures
        c % 4 + 1 < 4 ==> (c + 1) / 4 == c / 4 && (c + 1) % 4 == c % 4 + 1,
        c % 4 + 1 >= 4 ==> (c + 1) / 4 == c / 4 + 1 && (c + 1) % 4 == 0,
        0 <= c % 4 < 4,
{
    assert(c % 4 + 1 < 4 ==> (c + 1) / 4 == c / 4 && (c + 1) % 4 == c % 4 + 1) by (nonlinear_arith)
        requires
            0 <= c,
    ;
    assert(c % 4 + 1 >= 4 ==> (c + 1) / 4 == c / 4 + 1 && (c + 1) % 4 == 0) by (nonlinear_arith)
        requires
            0 <= c,
    ;
}

proof fn lemma_last_card_row(m: int)
    requires
        m > 0,
    ensures
        (m - 1) / 4 < (m + 4 - 1) / 4,
{
    assert((m - 1) / 4 < (m + 4 - 1) / 4) by (nonlinear_arith)
        requires
            m > 0,
    ;
}

proof fn lemma_sections_flow(ps: Seq<ProfileView>, names: Seq<Seq<char>>, g: int, row: int)
    requires
        0 <= g,
    ensures
        sections_from(ps, names, g, row).len() > 0 ==> sections_from(ps, names, g, row)[0] == header_item(
            names[g],
            row,
        ),
        forall|k: int|
            0 <= k < sections_from(ps, names, g, row).len() - 1 ==> #[trigger] follows_in_grid(
                sections_from(ps, names, g, row)[k],
                sections_from(ps, names, g, row)[k + 1],
            ),
    decreases names.len() - g,
{
    if g < names.len() {
        let m = section_members(ps, names[g]);
        let next = row + section_height(m.len() as int);
        lemma_sections_flow(ps, names, g + 1, next);
        let cards = section_cards(ps, m, row + 1);
        let head = seq![header_item(names[g], row)] + cards;
        let rest = sections_from(ps, names, g + 1, next);
        let all = sections_from(ps, names, g, row);
        assert(all == head + rest);
        assert(all[0] == head[0]);
        assert forall|k: int| 0 <= k < all.len() - 1 implies #[trigger] follows_in_grid(all[k], all[k + 1]) by {
            if k + 1 < head.len() {
                assert(all[k + 1] == cards[k]);
                if k == 0 {
                    assert(all[k] == header_item(names[g], row));
                } else {
                    let c = k - 1;
                    assert(all[k] == cards[c]);
                    lemma_card_step(c);
                }
            } else if k + 1 == head.len() {
                assert(all[k + 1] == rest[0]);
                assert(rest[0] == header_item(names[g + 1], next));
                if k == 0 {
                    assert(all[k] == header_item(names[g], row));
                } else {
                    assert(all[k] == cards[k - 1]);
                    lemma_last_card_row(m.len() as int);
                }
            } else {
                assert(all[k] == rest[k - head.len()]);
                assert(all[k + 1] == rest[k - head.len() + 1]);
                assert(follows_in_grid(rest[k - head.len()], rest[k - head.len() + 1]));
            }
        }
    }
}

/// The grid is filled in reading order: it starts with a header in row 0;
/// each header opens a row below everything before it; the cards of a
/// section start in column 0 under their header and fill the four columns of
/// a row before moving on to column 0 of the next row.
pub proof fn law_grid_fills_rows_in_order(ps: Seq<ProfileView>)
    ensures
        display_items(ps).len() > 0 ==> display_items(ps)[0].item_type == 0 && display_items(ps)[0].grid_row == 0
            && display_items(ps)[0].grid_col == 0,
        forall|k: int|
            0 <= k < display_items(ps).len() - 1 ==> #[trigger] follows_in_grid(
                display_items(ps)[k],
                display_items(ps)[k + 1],
            ),
{
    lemma_sections_flow(ps, section_names(ps), 0, 0);
}

} // verus!
