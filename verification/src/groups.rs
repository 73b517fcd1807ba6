//! Class names grouped by category, and the part of them that a search leaves
//! in sight.

use crate::category;
use crate::category::Category;
use crate::text;
use std::collections::BTreeMap;
use vstd::prelude::*;
use vstd::string::*;

verus! {

broadcast use vstd::std_specs::btree::group_btree_axioms;

/// A class name together with the number of its class.
pub type ItemText = (usize, Seq<char>);

/// The class names of one category.
pub struct LabelGroup {
    /// The title of the category.
    pub name: String,
    /// The classes, each with its number, in the order in which they are shown.
    pub items: Vec<(usize, String)>,
}

/// What a list of numbered names says.
pub open spec fn item_texts(items: Seq<(usize, String)>) -> Seq<ItemText> {
    items.map_values(|item: (usize, String)| (item.0, item.1@))
}

impl View for LabelGroup {
    type V = (Seq<char>, Seq<ItemText>);

    open spec fn view(&self) -> (Seq<char>, Seq<ItemText>) {
        (self.name@, item_texts(self.items@))
    }
}

/// What a list of groups says.
pub open spec fn group_texts(groups: Seq<LabelGroup>) -> Seq<(Seq<char>, Seq<ItemText>)> {
    groups.map_values(|group: LabelGroup| group@)
}

/// Whether class `a` is shown before class `b`: by their lower-case names, and
/// by their numbers where these are the same.
pub open spec fn shown_before(lowered: Seq<Seq<char>>, a: usize, b: usize) -> bool {
    ||| text::precedes(lowered[a as int], lowered[b as int])
    ||| lowered[a as int] == lowered[b as int] && a < b
}

/// Whether `items` are classes of one category, with their names, in the order
/// in which they are shown.
pub open spec fn is_arranged(
    labels: Seq<Seq<char>>,
    lowered: Seq<Seq<char>>,
    category: Category,
    items: Seq<ItemText>,
) -> bool {
    &&& forall|k: int|
        0 <= k < items.len() ==> {
            let item = #[trigger] items[k];
            &&& item.0 < labels.len()
            &&& item.1 == labels[item.0 as int]
            &&& category::category_of(lowered[item.0 as int]) == category
        }
    &&& forall|k: int, l: int|
        #![trigger items[k], items[l]]
        0 <= k < l < items.len() ==> shown_before(lowered, items[k].0, items[l].0)
}

/// Whether class `class_id` is among `items`.
pub open spec fn lists(items: Seq<ItemText>, class_id: int) -> bool {
    exists|k: int| 0 <= k < items.len() && (#[trigger] items[k]).0 == class_id
}

/// Whether class `class_id` is in one of the groups.
pub open spec fn is_listed(groups: Seq<(Seq<char>, Seq<ItemText>)>, class_id: int) -> bool {
    exists|g: int| 0 <= g < groups.len() && #[trigger] lists(groups[g].1, class_id)
}

/// Whether `groups` are the class names by category: one group for each
/// category that has any, in the order of the titles, and in it all classes of
/// that category in the order in which they are shown.
pub open spec fn is_grouped(
    labels: Seq<Seq<char>>,
    lowered: Seq<Seq<char>>,
    groups: Seq<(Seq<char>, Seq<ItemText>)>,
) -> bool {
    &&& forall|g: int, h: int|
        #![trigger groups[g], groups[h]]
        0 <= g < h < groups.len() ==> text::precedes(groups[g].0, groups[h].0)
    &&& forall|g: int|
        0 <= g < groups.len() ==> {
            &&& (#[trigger] groups[g]).1.len() > 0
            &&& exists|category: Category|
                {
                    &&& groups[g].0 == category::title_of(category)
                    &&& #[trigger] is_arranged(labels, lowered, category, groups[g].1)
                }
        }
    &&& forall|class_id: int|
        0 <= class_id < labels.len() ==> #[trigger] is_listed(groups, class_id)
}

/// The order in which classes are shown is transitive.
proof fn lemma_shown_before_transitive(lowered: Seq<Seq<char>>, a: usize, b: usize, c: usize)
    requires
        shown_before(lowered, a, b),
        shown_before(lowered, b, c),
    ensures
        shown_before(lowered, a, c),
{
    let (x, y, z) = (lowered[a as int], lowered[b as int], lowered[c as int]);
    if text::precedes(x, y) && text::precedes(y, z) {
        text::law_precedes_transitive(x, y, z);
    }
}

/// Where the titles stand among each other.
pub open spec fn title_rank(category: Category) -> int {
    match category {
        Category::Music => 0,
        Category::Animals => 1,
        Category::Other => 2,
        Category::People => 3,
        Category::Vehicles => 4,
        Category::Alerts => 5,
    }
}

/// The ranks order the categories as their titles do.
proof fn lemma_title_order(a: Category, b: Category)
    requires
        title_rank(a) < title_rank(b),
    ensures
        text::precedes(category::title_of(a), category::title_of(b)),
{
    reveal_strlit("🎵 Música e Instrumentos");
    reveal_strlit("🐾 Animais");
    reveal_strlit("📦 Outros e Ambiente");
    reveal_strlit("🗣️ Voz e Pessoas");
    reveal_strlit("🚗 Veículos e Trânsito");
    reveal_strlit("🚨 Alertas e Perigo");
}

/// The category whose title has a given rank.
fn category_at(rank: usize) -> (category: Category)
    requires
        rank < 6,
    ensures
        title_rank(category) == rank,
{
    if rank == 0 {
        Category::Music
    } else if rank == 1 {
        Category::Animals
    } else if rank == 2 {
        Category::Other
    } else if rank == 3 {
        Category::People
    } else if rank == 4 {
        Category::Vehicles
    } else {
        Category::Alerts
    }
}

/// Where a new class goes among classes that are in order and have smaller
/// numbers.
fn place_for(lowered: &Vec<String>, items: &Vec<(usize, String)>, class_id: usize) -> (place: usize)
    requires
        class_id < lowered@.len(),
        forall|k: int|
            0 <= k < items@.len() ==> (#[trigger] items@[k]).0 < class_id,
        forall|k: int, l: int|
            #![trigger items@[k], items@[l]]
            0 <= k < l < items@.len() ==> shown_before(
                text::texts(lowered@),
                items@[k].0,
                items@[l].0,
            ),
    ensures
        place <= items@.len(),
        forall|k: int|
            0 <= k < place ==> shown_before(
                text::texts(lowered@),
                (#[trigger] items@[k]).0,
                class_id,
            ),
        forall|k: int|
            place <= k < items@.len() ==> shown_before(
                text::texts(lowered@),
                class_id,
                (#[trigger] items@[k]).0,
            ),
{
    let ghost keys = text::texts(lowered@);
    let mut place: usize = items.len();
    while place > 0 && text::comes_before(&lowered[class_id], &lowered[items[place - 1].0])
        invariant
            keys == text::texts(lowered@),
            place <= items@.len(),
            class_id < lowered@.len(),
            forall|k: int| 0 <= k < items@.len() ==> (#[trigger] items@[k]).0 < class_id,
            forall|k: int|
                place <= k < items@.len() ==> shown_before(keys, class_id, (#[trigger] items@[k]).0),
        decreases place,
    {
        place -= 1;
        assert(keys[class_id as int] == lowered@[class_id as int]@);
        assert(keys[items@[place as int].0 as int] == lowered@[items@[place as int].0 as int]@);
    }
    proof {
        if place > 0 {
            let before = items@[place - 1].0;
            assert(keys[class_id as int] == lowered@[class_id as int]@);
            assert(keys[before as int] == lowered@[before as int]@);
            text::law_precedes_total(keys[class_id as int], keys[before as int]);
            assert(shown_before(keys, before, class_id));
            assert forall|k: int| 0 <= k < place implies shown_before(
                keys,
                (#[trigger] items@[k]).0,
                class_id,
            ) by {
                if k < place - 1 {
                    lemma_shown_before_transitive(keys, items@[k].0, before, class_id);
                }
            }
        }
    }
    place
}

/// The classes of one category, in the order in which they are shown.
fn collect_group(labels: &Vec<String>, lowered: &Vec<String>, wanted: Category) -> (items: Vec<
    (usize, String),
>)
    requires
        lowered@.len() == labels@.len(),
    ensures
        is_arranged(
            text::texts(labels@),
            text::texts(lowered@),
            wanted,
            item_texts(items@),
        ),
        forall|class_id: int|
            0 <= class_id < labels@.len() && category::category_of(
                #[trigger] text::texts(lowered@)[class_id],
            ) == wanted ==> lists(item_texts(items@), class_id),
{
    let ghost names = text::texts(labels@);
    let ghost keys = text::texts(lowered@);
    let mut items: Vec<(usize, String)> = Vec::new();
    let mut class_id: usize = 0;
    while class_id < labels.len()
        invariant
            names == text::texts(labels@),
            keys == text::texts(lowered@),
            lowered@.len() == labels@.len(),
            class_id <= labels@.len(),
            is_arranged(names, keys, wanted, item_texts(items@)),
            forall|k: int| 0 <= k < items@.len() ==> (#[trigger] items@[k]).0 < class_id,
            forall|c: int|
                0 <= c < class_id && category::category_of(#[trigger] keys[c]) == wanted ==> lists(
                    item_texts(items@),
                    c,
                ),
        decreases labels@.len() - class_id,
    {
        let ghost known = item_texts(items@);
        let ghost old_items = items@;
        assert(keys[class_id as int] == lowered@[class_id as int]@);
        if category::categorize_lowered(&lowered[class_id]) == wanted {
            assert forall|k: int, l: int|
                #![trigger items@[k], items@[l]]
                0 <= k < l < items@.len() implies shown_before(
                keys,
                items@[k].0,
                items@[l].0,
            ) by {
                assert(known[k].0 == items@[k].0 && known[l].0 == items@[l].0);
            }
            let place = place_for(lowered, &items, class_id);
            let label = labels[class_id].clone();
            items.insert(place, (class_id, label));
            proof {
                let now = item_texts(items@);
                assert(now =~= known.insert(place as int, (class_id, names[class_id as int])));
                assert forall|k: int| 0 <= k < now.len() implies ({
                    let item = #[trigger] now[k];
                    &&& item.0 < names.len()
                    &&& item.1 == names[item.0 as int]
                    &&& category::category_of(keys[item.0 as int]) == wanted
                }) by {
                    if k < place {
                        assert(now[k] == known[k]);
                    } else if k > place {
                        assert(now[k] == known[k - 1]);
                    }
                }
                assert forall|k: int, l: int|
                    #![trigger now[k], now[l]]
                    0 <= k < l < now.len() implies shown_before(keys, now[k].0, now[l].0) by {
                    if l < place {
                        assert(now[k] == known[k] && now[l] == known[l]);
                    } else if l == place {
                        assert(now[k] == known[k] && known[k].0 == old_items[k].0);
                    } else if k < place {
                        assert(now[k] == known[k] && now[l] == known[l - 1]);
                    } else if k == place {
                        assert(now[l] == known[l - 1] && known[l - 1].0 == old_items[l - 1].0);
                    } else {
                        assert(now[k] == known[k - 1] && now[l] == known[l - 1]);
                    }
                }
                assert forall|c: int|
                    0 <= c < class_id + 1 && category::category_of(#[trigger] keys[c])
                        == wanted implies lists(now, c) by {
                    if c < class_id {
                        let k = choose|k: int|
                            0 <= k < known.len() && (#[trigger] known[k]).0 == c;
                        if k < place {
                            assert(now[k] == known[k]);
                        } else {
                            assert(now[k + 1] == known[k]);
                        }
                    } else {
                        assert(now[place as int].0 == c);
                    }
                }
                assert forall|k: int| 0 <= k < items@.len() implies (#[trigger] items@[k]).0
                    < class_id + 1 by {
                    if k < place {
                        assert(items@[k] == old_items[k]);
                    } else if k > place {
                        assert(items@[k] == old_items[k - 1]);
                    }
                }
            }
        }
        class_id += 1;
    }
    items
}

/// The class names by category, given their lower-case forms.
pub fn group_labels(labels: &Vec<String>, lowered: &Vec<String>) -> (groups: Vec<LabelGroup>)
    requires
        lowered@.len() == labels@.len(),
    ensures
        is_grouped(text::texts(labels@), text::texts(lowered@), group_texts(groups@)),
{
    let ghost names = text::texts(labels@);
    let ghost keys = text::texts(lowered@);
    let mut groups: Vec<LabelGroup> = Vec::new();
    let mut rank: usize = 0;
    while rank < 6
        invariant
            names == text::texts(labels@),
            keys == text::texts(lowered@),
            lowered@.len() == labels@.len(),
            rank <= 6,
            groups_up_to(names, keys, group_texts(groups@), rank as int),
        decreases 6 - rank,
    {
        let ghost known = group_texts(groups@);
        let wanted = category_at(rank);
        let items = collect_group(labels, lowered, wanted);
        if items.len() > 0 {
            groups.push(LabelGroup { name: category::title(wanted).to_owned(), items });
            proof {
                let now = group_texts(groups@);
                assert(now =~= known.push((category::title_of(wanted), item_texts(items@))));
                lemma_add_group(names, keys, known, wanted, item_texts(items@), rank as int);
            }
        } else {
            proof {
                lemma_skip_group(names, keys, known, wanted, rank as int);
            }
        }
        rank += 1;
    }
    proof {
        lemma_all_groups(names, keys, group_texts(groups@));
    }
    groups
}

/// What holds of the groups once the categories below `rank` are done.
spec fn groups_up_to(
    names: Seq<Seq<char>>,
    keys: Seq<Seq<char>>,
    groups: Seq<(Seq<char>, Seq<ItemText>)>,
    rank: int,
) -> bool {
    &&& names.len() == keys.len()
    &&& forall|g: int, h: int|
        #![trigger groups[g], groups[h]]
        0 <= g < h < groups.len() ==> text::precedes(groups[g].0, groups[h].0)
    &&& forall|g: int|
        0 <= g < groups.len() ==> {
            &&& (#[trigger] groups[g]).1.len() > 0
            &&& exists|category: Category|
                {
                    &&& groups[g].0 == category::title_of(category)
                    &&& title_rank(category) < rank
                    &&& #[trigger] is_arranged(names, keys, category, groups[g].1)
                }
        }
    &&& forall|c: int|
        0 <= c < names.len() && title_rank(category::category_of(#[trigger] keys[c])) < rank
            ==> is_listed(groups, c)
}

/// Adding the group of the next category.
proof fn lemma_add_group(
    names: Seq<Seq<char>>,
    keys: Seq<Seq<char>>,
    groups: Seq<(Seq<char>, Seq<ItemText>)>,
    wanted: Category,
    items: Seq<ItemText>,
    rank: int,
)
    requires
        groups_up_to(names, keys, groups, rank),
        title_rank(wanted) == rank,
        items.len() > 0,
        is_arranged(names, keys, wanted, items),
        forall|c: int|
            0 <= c < names.len() && category::category_of(#[trigger] keys[c]) == wanted ==> lists(
                items,
                c,
            ),
    ensures
        groups_up_to(names, keys, groups.push((category::title_of(wanted), items)), rank + 1),
{
    let now = groups.push((category::title_of(wanted), items));
    let last = groups.len() as int;
    assert forall|g: int, h: int|
        #![trigger now[g], now[h]]
        0 <= g < h < now.len() implies text::precedes(now[g].0, now[h].0) by {
        assert(now[g] == groups[g]);
        if h < last {
            assert(now[h] == groups[h]);
        } else {
            let category = choose|category: Category|
                {
                    &&& groups[g].0 == category::title_of(category)
                    &&& title_rank(category) < rank
                    &&& #[trigger] is_arranged(names, keys, category, groups[g].1)
                };
            lemma_title_order(category, wanted);
        }
    }
    assert forall|g: int| 0 <= g < now.len() implies {
        &&& (#[trigger] now[g]).1.len() > 0
        &&& exists|category: Category|
            {
                &&& now[g].0 == category::title_of(category)
                &&& title_rank(category) < rank + 1
                &&& #[trigger] is_arranged(names, keys, category, now[g].1)
            }
    } by {
        if g < last {
            assert(now[g] == groups[g]);
            let category = choose|category: Category|
                {
                    &&& groups[g].0 == category::title_of(category)
                    &&& title_rank(category) < rank
                    &&& #[trigger] is_arranged(names, keys, category, groups[g].1)
                };
            assert(is_arranged(names, keys, category, now[g].1));
        } else {
            assert(is_arranged(names, keys, wanted, now[g].1));
        }
    }
    assert forall|c: int|
        0 <= c < names.len() && title_rank(category::category_of(#[trigger] keys[c])) < rank
            + 1 implies is_listed(now, c) by {
        if title_rank(category::category_of(keys[c])) < rank {
            let g = choose|g: int| 0 <= g < groups.len() && #[trigger] lists(groups[g].1, c);
            assert(lists(now[g].1, c));
        } else {
            assert(category::category_of(keys[c]) == wanted);
            assert(lists(now[last].1, c));
        }
    }
}

/// Passing over a category without classes.
proof fn lemma_skip_group(
    names: Seq<Seq<char>>,
    keys: Seq<Seq<char>>,
    groups: Seq<(Seq<char>, Seq<ItemText>)>,
    wanted: Category,
    rank: int,
)
    requires
        groups_up_to(names, keys, groups, rank),
        title_rank(wanted) == rank,
        forall|c: int|
            0 <= c < names.len() ==> category::category_of(#[trigger] keys[c]) != wanted,
    ensures
        groups_up_to(names, keys, groups, rank + 1),
{
    assert forall|g: int| 0 <= g < groups.len() implies {
        &&& (#[trigger] groups[g]).1.len() > 0
        &&& exists|category: Category|
            {
                &&& groups[g].0 == category::title_of(category)
                &&& title_rank(category) < rank + 1
                &&& #[trigger] is_arranged(names, keys, category, groups[g].1)
            }
    } by {
        let category = choose|category: Category|
            {
                &&& groups[g].0 == category::title_of(category)
                &&& title_rank(category) < rank
                &&& #[trigger] is_arranged(names, keys, category, groups[g].1)
            };
        assert(is_arranged(names, keys, category, groups[g].1));
    }
    assert forall|c: int|
        0 <= c < names.len() && title_rank(category::category_of(#[trigger] keys[c])) < rank
            + 1 implies is_listed(groups, c) by {
        assert(category::category_of(keys[c]) != wanted);
    }
}

/// With all categories done the class names are grouped.
proof fn lemma_all_groups(
    names: Seq<Seq<char>>,
    keys: Seq<Seq<char>>,
    groups: Seq<(Seq<char>, Seq<ItemText>)>,
)
    requires
        groups_up_to(names, keys, groups, 6),
    ensures
        is_grouped(names, keys, groups),
{
    assert forall|g: int| 0 <= g < groups.len() implies exists|category: Category|
        {
            &&& (#[trigger] groups[g]).0 == category::title_of(category)
            &&& #[trigger] is_arranged(names, keys, category, groups[g].1)
        } by {
        let category = choose|category: Category|
            {
                &&& groups[g].0 == category::title_of(category)
                &&& title_rank(category) < 6
                &&& #[trigger] is_arranged(names, keys, category, groups[g].1)
            };
        assert(is_arranged(names, keys, category, groups[g].1));
    }
    assert forall|c: int| 0 <= c < names.len() implies #[trigger] is_listed(groups, c) by {
        assert(title_rank(category::category_of(keys[c])) < 6);
    }
}

/// The lower-case form of each name of a list.
pub open spec fn lowercase_all(names: Seq<Seq<char>>) -> Seq<Seq<char>> {
    names.map_values(|name: Seq<char>| text::lowercase(name))
}

/// The class names by category: the categories in the order of their titles,
/// the names of a category in the order of their lower-case forms, and names
/// with the same form in the order of their numbers.
pub fn build_grouped_labels(labels: &Vec<String>) -> (groups: Vec<LabelGroup>)
    ensures
        is_grouped(
            text::texts(labels@),
            lowercase_all(text::texts(labels@)),
            group_texts(groups@),
        ),
{
    let mut lowered: Vec<String> = Vec::new();
    let mut i: usize = 0;
    while i < labels.len()
        invariant
            i <= labels@.len(),
            lowered@.len() == i,
            forall|j: int|
                0 <= j < i ==> (#[trigger] lowered@[j])@ == text::lowercase(labels@[j]@),
        decreases labels@.len() - i,
    {
        lowered.push(labels[i].to_lowercase());
        i += 1;
    }
    assert(text::texts(lowered@) =~= lowercase_all(text::texts(labels@)));
    group_labels(labels, &lowered)
}

/// A group holds exactly the classes of its category.
proof fn lemma_group_category(
    labels: Seq<Seq<char>>,
    lowered: Seq<Seq<char>>,
    groups: Seq<(Seq<char>, Seq<ItemText>)>,
    g: int,
    k: int,
)
    requires
        is_grouped(labels, lowered, groups),
        0 <= g < groups.len(),
        0 <= k < groups[g].1.len(),
    ensures
        groups[g].1[k].0 < labels.len(),
        groups[g].1[k].1 == labels[groups[g].1[k].0 as int],
        groups[g].0 == category::title_of(
            category::category_of(lowered[groups[g].1[k].0 as int]),
        ),
{
    let category = choose|category: Category|
        {
            &&& groups[g].0 == category::title_of(category)
            &&& #[trigger] is_arranged(labels, lowered, category, groups[g].1)
        };
    assert(is_arranged(labels, lowered, category, groups[g].1));
}

/// Every class is shown, and in one place only.
pub proof fn law_each_class_stands_once(
    labels: Seq<Seq<char>>,
    lowered: Seq<Seq<char>>,
    groups: Seq<(Seq<char>, Seq<ItemText>)>,
    class_id: usize,
)
    requires
        is_grouped(labels, lowered, groups),
        class_id < labels.len(),
    ensures
        exists|g: int, k: int|
            #![trigger groups[g].1[k]]
            0 <= g < groups.len() && 0 <= k < groups[g].1.len() && groups[g].1[k].0 == class_id,
        forall|g: int, k: int, h: int, l: int|
            #![trigger groups[g].1[k], groups[h].1[l]]
            0 <= g < groups.len() && 0 <= k < groups[g].1.len() && 0 <= h < groups.len() && 0 <= l
                < groups[h].1.len() && groups[g].1[k].0 == class_id && groups[h].1[l].0 == class_id
                ==> g == h && k == l,
{
    assert(is_listed(groups, class_id as int));
    let g0 = choose|g: int| 0 <= g < groups.len() && #[trigger] lists(groups[g].1, class_id as int);
    let k0 = choose|k: int|
        0 <= k < groups[g0].1.len() && (#[trigger] groups[g0].1[k]).0 == class_id as int;
    assert(groups[g0].1[k0].0 == class_id);
    assert forall|g: int, k: int, h: int, l: int|
        #![trigger groups[g].1[k], groups[h].1[l]]
        0 <= g < groups.len() && 0 <= k < groups[g].1.len() && 0 <= h < groups.len() && 0 <= l
            < groups[h].1.len() && groups[g].1[k].0 == class_id && groups[h].1[l].0
            == class_id implies g == h && k == l by {
        lemma_group_category(labels, lowered, groups, g, k);
        lemma_group_category(labels, lowered, groups, h, l);
        text::law_precedes_irreflexive(groups[g].0);
        text::law_precedes_irreflexive(lowered[class_id as int]);
        if g < h {
            assert(text::precedes(groups[g].0, groups[h].0));
        } else if h < g {
            assert(text::precedes(groups[h].0, groups[g].0));
        } else if k != l {
            let category = choose|category: Category|
                {
                    &&& groups[g].0 == category::title_of(category)
                    &&& #[trigger] is_arranged(labels, lowered, category, groups[g].1)
                };
            assert(is_arranged(labels, lowered, category, groups[g].1));
            if k < l {
                assert(shown_before(lowered, groups[g].1[k].0, groups[g].1[l].0));
            } else {
                assert(shown_before(lowered, groups[g].1[l].0, groups[g].1[k].0));
            }
        }
    }
}

/// Whether `items` hold every class of a category.
spec fn is_complete(lowered: Seq<Seq<char>>, category: Category, items: Seq<ItemText>) -> bool {
    forall|c: int|
        0 <= c < lowered.len() && category::category_of(#[trigger] lowered[c]) == category
            ==> lists(items, c)
}

/// Two arrangements of one category agree on their first `n` items.
proof fn lemma_same_items(
    labels: Seq<Seq<char>>,
    lowered: Seq<Seq<char>>,
    category: Category,
    a: Seq<ItemText>,
    b: Seq<ItemText>,
    n: int,
)
    requires
        labels.len() == lowered.len(),
        is_arranged(labels, lowered, category, a),
        is_arranged(labels, lowered, category, b),
        is_complete(lowered, category, a),
        is_complete(lowered, category, b),
        0 <= n <= a.len(),
    ensures
        n <= b.len(),
        forall|k: int| 0 <= k < n ==> a[k] == b[k],
    decreases n,
{
    if n > 0 {
        let k = n - 1;
        lemma_same_items(labels, lowered, category, a, b, k);
        let c = a[k].0;
        assert(category::category_of(lowered[c as int]) == category);
        assert(lists(b, c as int));
        let m = choose|m: int| 0 <= m < b.len() && (#[trigger] b[m]).0 == c as int;
        text::law_precedes_irreflexive(lowered[c as int]);
        if m < k {
            assert(a[m] == b[m]);
            assert(shown_before(lowered, a[m].0, a[k].0));
        }
        if m > k {
            let d = b[k].0;
            assert(shown_before(lowered, b[k].0, b[m].0));
            assert(category::category_of(lowered[d as int]) == category);
            assert(lists(a, d as int));
            let l = choose|l: int| 0 <= l < a.len() && (#[trigger] a[l]).0 == d as int;
            text::law_precedes_irreflexive(lowered[d as int]);
            if l < k {
                assert(a[l] == b[l]);
                assert(shown_before(lowered, b[l].0, b[k].0));
            } else if l > k {
                assert(shown_before(lowered, a[k].0, a[l].0));
                lemma_shown_before_transitive(lowered, c, d, c);
            }
        }
        assert(a[k] == b[k]);
    }
}

/// Two arrangements of one category are the same.
proof fn lemma_one_arrangement(
    labels: Seq<Seq<char>>,
    lowered: Seq<Seq<char>>,
    category: Category,
    a: Seq<ItemText>,
    b: Seq<ItemText>,
)
    requires
        labels.len() == lowered.len(),
        is_arranged(labels, lowered, category, a),
        is_arranged(labels, lowered, category, b),
        is_complete(lowered, category, a),
        is_complete(lowered, category, b),
    ensures
        a == b,
{
    lemma_same_items(labels, lowered, category, a, b, a.len() as int);
    lemma_same_items(labels, lowered, category, b, a, b.len() as int);
    assert(a =~= b);
}

/// Different categories have different titles.
proof fn lemma_titles_differ(a: Category, b: Category)
    requires
        category::title_of(a) == category::title_of(b),
    ensures
        a == b,
{
    text::law_precedes_irreflexive(category::title_of(a));
    if title_rank(a) < title_rank(b) {
        lemma_title_order(a, b);
    } else if title_rank(b) < title_rank(a) {
        lemma_title_order(b, a);
    }
}

/// A group has the category of its title, and all classes of it.
proof fn lemma_group_is_complete(
    labels: Seq<Seq<char>>,
    lowered: Seq<Seq<char>>,
    groups: Seq<(Seq<char>, Seq<ItemText>)>,
    g: int,
    category: Category,
)
    requires
        labels.len() == lowered.len(),
        is_grouped(labels, lowered, groups),
        0 <= g < groups.len(),
        groups[g].0 == category::title_of(category),
    ensures
        is_arranged(labels, lowered, category, groups[g].1),
        is_complete(lowered, category, groups[g].1),
{
    let own = choose|own: Category|
        {
            &&& groups[g].0 == category::title_of(own)
            &&& #[trigger] is_arranged(labels, lowered, own, groups[g].1)
        };
    lemma_titles_differ(own, category);
    assert forall|c: int|
        0 <= c < lowered.len() && category::category_of(#[trigger] lowered[c])
            == category implies lists(groups[g].1, c) by {
        assert(is_listed(groups, c));
        let h = choose|h: int| 0 <= h < groups.len() && #[trigger] lists(groups[h].1, c);
        let k = choose|k: int| 0 <= k < groups[h].1.len() && (#[trigger] groups[h].1[k]).0 == c;
        lemma_group_category(labels, lowered, groups, h, k);
        text::law_precedes_irreflexive(groups[g].0);
        if g < h {
            assert(text::precedes(groups[g].0, groups[h].0));
        } else if h < g {
            assert(text::precedes(groups[h].0, groups[g].0));
        }
    }
}

/// A title that one grouping shows is shown by the other.
proof fn lemma_same_titles(
    labels: Seq<Seq<char>>,
    lowered: Seq<Seq<char>>,
    a: Seq<(Seq<char>, Seq<ItemText>)>,
    b: Seq<(Seq<char>, Seq<ItemText>)>,
    g: int,
) -> (h: int)
    requires
        labels.len() == lowered.len(),
        is_grouped(labels, lowered, a),
        is_grouped(labels, lowered, b),
        0 <= g < a.len(),
    ensures
        0 <= h < b.len(),
        a[g] == b[h],
{
    assert(a[g].1.len() > 0);
    lemma_group_category(labels, lowered, a, g, 0);
    let c = a[g].1[0].0 as int;
    let category = category::category_of(lowered[c]);
    assert(is_listed(b, c));
    let h = choose|h: int| 0 <= h < b.len() && #[trigger] lists(b[h].1, c);
    let k = choose|k: int| 0 <= k < b[h].1.len() && (#[trigger] b[h].1[k]).0 == c;
    lemma_group_category(labels, lowered, b, h, k);
    lemma_group_is_complete(labels, lowered, a, g, category);
    lemma_group_is_complete(labels, lowered, b, h, category);
    lemma_one_arrangement(labels, lowered, category, a[g].1, b[h].1);
    h
}

/// Two groupings agree on their first `n` groups.
proof fn lemma_same_groups(
    labels: Seq<Seq<char>>,
    lowered: Seq<Seq<char>>,
    a: Seq<(Seq<char>, Seq<ItemText>)>,
    b: Seq<(Seq<char>, Seq<ItemText>)>,
    n: int,
)
    requires
        labels.len() == lowered.len(),
        is_grouped(labels, lowered, a),
        is_grouped(labels, lowered, b),
        0 <= n <= a.len(),
    ensures
        n <= b.len(),
        forall|g: int| 0 <= g < n ==> a[g] == b[g],
    decreases n,
{
    if n > 0 {
        let g = n - 1;
        lemma_same_groups(labels, lowered, a, b, g);
        let h = lemma_same_titles(labels, lowered, a, b, g);
        text::law_precedes_irreflexive(a[g].0);
        if h < g {
            assert(a[h] == b[h]);
            assert(text::precedes(a[h].0, a[g].0));
        }
        if h > g {
            assert(text::precedes(b[g].0, b[h].0));
            let f = lemma_same_titles(labels, lowered, b, a, g);
            text::law_precedes_irreflexive(b[g].0);
            if f < g {
                assert(a[f] == b[f]);
                assert(text::precedes(b[f].0, b[g].0));
            } else if f > g {
                assert(text::precedes(a[g].0, a[f].0));
                text::law_precedes_transitive(a[g].0, b[g].0, a[g].0);
            }
        }
    }
}

/// There is one way to group class names.
pub proof fn law_grouping_is_unique(
    labels: Seq<Seq<char>>,
    lowered: Seq<Seq<char>>,
    a: Seq<(Seq<char>, Seq<ItemText>)>,
    b: Seq<(Seq<char>, Seq<ItemText>)>,
)
    requires
        labels.len() == lowered.len(),
        is_grouped(labels, lowered, a),
        is_grouped(labels, lowered, b),
    ensures
        a == b,
{
    lemma_same_groups(labels, lowered, a, b, a.len() as int);
    lemma_same_groups(labels, lowered, b, a, b.len() as int);
    assert(a =~= b);
}

/// The custom names as texts.
pub open spec fn name_texts(names: Map<usize, String>) -> Map<usize, Seq<char>> {
    names.map_values(|name: String| name@)
}

/// Whether a search finds a class, all texts being in lower case: an empty
/// query finds everything, any other what holds it in the class name or in the
/// custom name.
pub open spec fn finds(query: Seq<char>, label: Seq<char>, custom: Option<Seq<char>>) -> bool {
    ||| query.len() == 0
    ||| text::has(label, query)
    ||| custom is Some && text::has(custom->0, query)
}

/// Whether a search finds a numbered class name.
pub open spec fn keeps(query: Seq<char>, names: Map<usize, Seq<char>>, item: ItemText) -> bool {
    finds(
        text::lowercase(query),
        text::lowercase(item.1),
        if names.dom().contains(item.0) {
            Some(text::lowercase(names[item.0]))
        } else {
            None
        },
    )
}

/// The items that a search finds, in their order.
pub open spec fn found_items(
    query: Seq<char>,
    names: Map<usize, Seq<char>>,
    items: Seq<ItemText>,
) -> Seq<ItemText> {
    items.filter(|item: ItemText| keeps(query, names, item))
}

/// The groups in which a search finds anything, each with what it finds.
pub open spec fn found_groups(
    query: Seq<char>,
    names: Map<usize, Seq<char>>,
    groups: Seq<(Seq<char>, Seq<ItemText>)>,
) -> Seq<(Seq<char>, Seq<ItemText>)>
    decreases groups.len(),
{
    if groups.len() == 0 {
        Seq::empty()
    } else {
        let before = found_groups(query, names, groups.drop_last());
        let found = found_items(query, names, groups.last().1);
        if found.len() == 0 {
            before
        } else {
            before.push((groups.last().0, found))
        }
    }
}

/// Whether a search finds a class; all texts are in lower case.
pub fn matches_query(query: &str, label: &str, custom: &Option<String>) -> (found: bool)
    ensures
        found == finds(
            query@,
            label@,
            match custom {
                Some(name) => Some(name@),
                None => None,
            },
        ),
{
    if query.is_empty() || text::contains(label, query) {
        return true;
    }
    match custom {
        Some(name) => text::contains(name, query),
        None => false,
    }
}

/// The items that a search finds. The query and the names are compared without
/// regard to the case of their letters.
pub fn search_items(
    items: &Vec<(usize, String)>,
    query: &str,
    custom_names: &BTreeMap<usize, String>,
) -> (found: Vec<(usize, String)>)
    ensures
        item_texts(found@) == found_items(query@, name_texts(custom_names@), item_texts(items@)),
        query@.len() == 0 ==> item_texts(found@) == item_texts(items@),
{
    let ghost names = name_texts(custom_names@);
    let ghost keep = |item: ItemText| keeps(query@, names, item);
    let ghost all = item_texts(items@);
    let lowered = query.to_lowercase();
    let mut found: Vec<(usize, String)> = Vec::new();
    let mut i: usize = 0;
    assert(all.take(0).filter(keep) =~= Seq::<ItemText>::empty()) by {
        reveal(Seq::filter);
    }
    while i < items.len()
        invariant
            i <= items@.len(),
            all == item_texts(items@),
            names == name_texts(custom_names@),
            keep == (|item: ItemText| keeps(query@, names, item)),
            lowered@ == text::lowercase(query@),
            query@.len() == 0 ==> lowered@.len() == 0,
            item_texts(found@) == all.take(i as int).filter(keep),
            query@.len() == 0 ==> item_texts(found@) == all.take(i as int),
        decreases items@.len() - i,
    {
        let custom: Option<String> = match custom_names.get(&items[i].0) {
            Some(name) => Some(name.to_lowercase()),
            None => None,
        };
        let label = items[i].1.to_lowercase();
        let ghost item = all[i as int];
        let ghost known = found@;
        if matches_query(&lowered, &label, &custom) {
            found.push((items[i].0, items[i].1.clone()));
            assert(item_texts(found@) =~= item_texts(known).push(item));
        }
        proof {
            reveal(Seq::filter);
            assert(all.take(i + 1).drop_last() =~= all.take(i as int));
            assert(all.take(i + 1).last() == item);
            assert(all.take(i + 1) =~= all.take(i as int).push(item));
        }
        i += 1;
    }
    assert(all.take(all.len() as int) =~= all);
    found
}

/// The groups in which a search finds anything, each with what it finds.
pub fn search_groups(
    groups: &Vec<LabelGroup>,
    query: &str,
    custom_names: &BTreeMap<usize, String>,
) -> (found: Vec<LabelGroup>)
    ensures
        group_texts(found@) == found_groups(
            query@,
            name_texts(custom_names@),
            group_texts(groups@),
        ),
{
    let ghost names = name_texts(custom_names@);
    let ghost all = group_texts(groups@);
    let mut found: Vec<LabelGroup> = Vec::new();
    let mut i: usize = 0;
    assert(group_texts(found@) =~= found_groups(query@, names, all.take(0)));
    while i < groups.len()
        invariant
            i <= groups@.len(),
            all == group_texts(groups@),
            names == name_texts(custom_names@),
            group_texts(found@) == found_groups(query@, names, all.take(i as int)),
        decreases groups@.len() - i,
    {
        let ghost known = found@;
        let items = search_items(&groups[i].items, query, custom_names);
        assert(all.take(i + 1).drop_last() =~= all.take(i as int));
        assert(all.take(i + 1).last() == all[i as int]);
        assert(item_texts(items@).len() == items@.len());
        if items.len() > 0 {
            found.push(LabelGroup { name: groups[i].name.clone(), items });
            assert(group_texts(found@) =~= group_texts(known).push(
                (all[i as int].0, item_texts(items@)),
            ));
        }
        i += 1;
    }
    assert(all.take(all.len() as int) =~= all);
    found
}

/// A search for more text finds no more: what it finds is also found by a
/// search for a part of that text.
pub proof fn law_longer_query_finds_less(
    longer: Seq<char>,
    shorter: Seq<char>,
    names: Map<usize, Seq<char>>,
    item: ItemText,
)
    requires
        text::has(text::lowercase(longer), text::lowercase(shorter)),
        keeps(longer, names, item),
    ensures
        keeps(shorter, names, item),
{
    let q = text::lowercase(longer);
    let part = text::lowercase(shorter);
    if text::has(text::lowercase(item.1), q) {
        text::law_has_transitive(text::lowercase(item.1), q, part);
    }
    if names.dom().contains(item.0) && text::has(text::lowercase(names[item.0]), q) {
        text::law_has_transitive(text::lowercase(names[item.0]), q, part);
    }
}

/// A class is found by its own name and by its custom name, in any case of the
/// letters that has the same lower-case form.
pub proof fn law_class_is_found_by_its_names(
    query: Seq<char>,
    names: Map<usize, Seq<char>>,
    item: ItemText,
)
    requires
        text::lowercase(query) == text::lowercase(item.1) || names.dom().contains(item.0)
            && text::lowercase(query) == text::lowercase(names[item.0]),
    ensures
        keeps(query, names, item),
{
    text::law_has_trivial(text::lowercase(query));
}

/// No group is shown without an item.
pub proof fn law_found_groups_have_items(
    query: Seq<char>,
    names: Map<usize, Seq<char>>,
    groups: Seq<(Seq<char>, Seq<ItemText>)>,
    g: int,
)
    requires
        0 <= g < found_groups(query, names, groups).len(),
    ensures
        found_groups(query, names, groups)[g].1.len() > 0,
    decreases groups.len(),
{
    let before = found_groups(query, names, groups.drop_last());
    if g < before.len() {
        law_found_groups_have_items(query, names, groups.drop_last(), g);
    }
}

/// Whatever a search leaves in sight is found by it.
pub proof fn law_found_items_match(
    query: Seq<char>,
    names: Map<usize, Seq<char>>,
    all: Seq<(Seq<char>, Seq<ItemText>)>,
    g: int,
    k: int,
)
    requires
        0 <= g < found_groups(query, names, all).len(),
        0 <= k < found_groups(query, names, all)[g].1.len(),
    ensures
        keeps(query, names, found_groups(query, names, all)[g].1[k]),
    decreases all.len(),
{
    let before = found_groups(query, names, all.drop_last());
    if g < before.len() {
        law_found_items_match(query, names, all.drop_last(), g, k);
    } else {
        let keep = |item: ItemText| keeps(query, names, item);
        let found = all.last().1.filter(keep);
        all.last().1.lemma_filter_pred(keep, k);
        assert(keep(found[k]));
    }
}

/// Whatever matches a search is left in sight, in a group with the title of its
/// own.
pub proof fn law_matching_items_are_found(
    query: Seq<char>,
    names: Map<usize, Seq<char>>,
    all: Seq<(Seq<char>, Seq<ItemText>)>,
    g: int,
    k: int,
)
    requires
        0 <= g < all.len(),
        0 <= k < all[g].1.len(),
        keeps(query, names, all[g].1[k]),
    ensures
        exists|h: int|
            {
                &&& 0 <= h < found_groups(query, names, all).len()
                &&& (#[trigger] found_groups(query, names, all)[h]).0 == all[g].0
                &&& found_groups(query, names, all)[h].1.contains(all[g].1[k])
            },
    decreases all.len(),
{
    let head = all.drop_last();
    let before = found_groups(query, names, head);
    let now = found_groups(query, names, all);
    if g < head.len() {
        assert(head[g] == all[g]);
        law_matching_items_are_found(query, names, head, g, k);
        let h = choose|h: int|
            {
                &&& 0 <= h < before.len()
                &&& (#[trigger] before[h]).0 == head[g].0
                &&& before[h].1.contains(head[g].1[k])
            };
        assert(now[h] == before[h]);
    } else {
        let keep = |item: ItemText| keeps(query, names, item);
        assert(keep(all[g].1[k]));
        all[g].1.lemma_filter_contains(keep, k);
        assert(now[before.len() as int] == (all[g].0, found_items(query, names, all[g].1)));
    }
}

/// A title with a number of items.
pub open spec fn heading_of(title: Seq<char>, count: nat) -> Seq<char> {
    title + " ("@ + text::decimal(count) + ")"@
}

/// The heading of a group: its title and the number of its items.
pub fn group_heading(group: &LabelGroup) -> (heading: String)
    ensures
        heading@ == group.name@ + " ("@ + text::decimal(group.items@.len()) + ")"@,
        heading@ == heading_of(group.name@, group.items@.len()),
{
    let mut heading = group.name.clone();
    heading.append(" (");
    heading.append(&text::write_decimal(group.items.len() as u64));
    heading.append(")");
    heading
}

/// Numbered names, groups, lower-case names and custom names stand in their places
/// with what they say.
pub proof fn law_texts_of_lists(
    items: Seq<(usize, String)>,
    groups: Seq<LabelGroup>,
    labels: Seq<Seq<char>>,
    names: Map<usize, String>,
    i: int,
    class_id: usize,
)
    ensures
        item_texts(items).len() == items.len(),
        0 <= i < items.len() ==> item_texts(items)[i] == (items[i].0, items[i].1@),
        group_texts(groups).len() == groups.len(),
        0 <= i < groups.len() ==> group_texts(groups)[i].0 == groups[i].name@
            && group_texts(groups)[i].1 == item_texts(groups[i].items@),
        lowercase_all(labels).len() == labels.len(),
        0 <= i < labels.len() ==> lowercase_all(labels)[i] == text::lowercase(labels[i]),
        name_texts(names).dom().contains(class_id) <==> names.dom().contains(class_id),
        names.dom().contains(class_id) ==> name_texts(names)[class_id] == names[class_id]@,
{
}

/// Each class of a group has its own name there, and the group the title of its
/// category.
pub proof fn law_groups_are_those_of_the_categories(
    labels: Seq<Seq<char>>,
    lowered: Seq<Seq<char>>,
    groups: Seq<(Seq<char>, Seq<ItemText>)>,
    g: int,
    k: int,
)
    requires
        is_grouped(labels, lowered, groups),
        0 <= g < groups.len(),
        0 <= k < groups[g].1.len(),
    ensures
        groups[g].1[k].0 < labels.len(),
        groups[g].1[k].1 == labels[groups[g].1[k].0 as int],
        groups[g].0 == category::title_of(
            category::category_of(lowered[groups[g].1[k].0 as int]),
        ),
{
    lemma_group_category(labels, lowered, groups, g, k);
}

/// Groups follow each other by their titles, and the classes of a group by their
/// lower-case names; where these are the same the lower number comes first. No
/// group is empty.
pub proof fn law_groups_are_in_order(
    labels: Seq<Seq<char>>,
    lowered: Seq<Seq<char>>,
    groups: Seq<(Seq<char>, Seq<ItemText>)>,
    g: int,
    h: int,
    k: int,
    l: int,
)
    requires
        is_grouped(labels, lowered, groups),
    ensures
        0 <= g < groups.len() ==> groups[g].1.len() > 0,
        0 <= g < h < groups.len() ==> text::precedes(groups[g].0, groups[h].0),
        0 <= g < groups.len() && 0 <= k < l < groups[g].1.len() ==> {
            let a = groups[g].1[k].0;
            let b = groups[g].1[l].0;
            &&& !text::precedes(lowered[b as int], lowered[a as int])
            &&& lowered[a as int] == lowered[b as int] ==> a < b
        },
{
    if 0 <= g < h < groups.len() {
        assert(text::precedes(groups[g].0, groups[h].0));
    }
    if 0 <= g < groups.len() && 0 <= k < l < groups[g].1.len() {
        let a = groups[g].1[k].0;
        let b = groups[g].1[l].0;
        let category = choose|category: Category|
            {
                &&& groups[g].0 == category::title_of(category)
                &&& #[trigger] is_arranged(labels, lowered, category, groups[g].1)
            };
        assert(shown_before(lowered, a, b));
        text::law_precedes_irreflexive(lowered[a as int]);
        if text::precedes(lowered[b as int], lowered[a as int]) && text::precedes(
            lowered[a as int],
            lowered[b as int],
        ) {
            text::law_precedes_transitive(
                lowered[a as int],
                lowered[b as int],
                lowered[a as int],
            );
        }
    }
}

/// A search finds a class exactly if the lower-case query is empty, or stands in
/// the lower-case name of the class, or in the lower-case custom name that the
/// class has.
pub proof fn law_query_stands_in_a_name(
    query: Seq<char>,
    names: Map<usize, Seq<char>>,
    item: ItemText,
)
    ensures
        ({
            let word = text::lowercase(query);
            let label = text::lowercase(item.1);
            let custom = text::lowercase(names[item.0]);
            keeps(query, names, item) <==> word == Seq::<char>::empty() || (exists|
                a: Seq<char>,
                b: Seq<char>,
            | label == #[trigger] (a + word + b)) || names.dom().contains(item.0) && (exists|
                a: Seq<char>,
                b: Seq<char>,
            | custom == #[trigger] (a + word + b))
        }),
{
    let word = text::lowercase(query);
    text::law_text_with_a_word(text::lowercase(item.1), word);
    text::law_text_with_a_word(text::lowercase(names[item.0]), word);
    if word.len() == 0 {
        assert(word =~= Seq::<char>::empty());
    }
}

/// An item in neither of whose names the query occurs is never in sight.
pub proof fn law_other_items_are_not_found(
    query: Seq<char>,
    names: Map<usize, Seq<char>>,
    all: Seq<(Seq<char>, Seq<ItemText>)>,
    g: int,
    k: int,
)
    requires
        text::lowercase(query).len() > 0,
        0 <= g < found_groups(query, names, all).len(),
        0 <= k < found_groups(query, names, all)[g].1.len(),
    ensures
        ({
            let item = found_groups(query, names, all)[g].1[k];
            ||| text::has(text::lowercase(item.1), text::lowercase(query))
            ||| names.dom().contains(item.0) && text::has(
                text::lowercase(names[item.0]),
                text::lowercase(query),
            )
        }),
{
    law_found_items_match(query, names, all, g, k);
}

/// A search goes through items one by one and keeps them in their order: what it
/// finds in more items is what it found before, with the next item at the end if
/// that matches.
pub proof fn law_found_items_keep_their_order(
    query: Seq<char>,
    names: Map<usize, Seq<char>>,
    items: Seq<ItemText>,
    item: ItemText,
)
    ensures
        found_items(query, names, Seq::empty()) == Seq::<ItemText>::empty(),
        found_items(query, names, items.push(item)) == if keeps(query, names, item) {
            found_items(query, names, items).push(item)
        } else {
            found_items(query, names, items)
        },
{
    reveal(Seq::filter);
    assert(items.push(item).drop_last() =~= items);
}

/// A search goes through groups one by one and keeps them in their order: a group
/// keeps its title and what is found in it, and one in which nothing is found is
/// left out.
pub proof fn law_found_groups_keep_their_order(
    query: Seq<char>,
    names: Map<usize, Seq<char>>,
    all: Seq<(Seq<char>, Seq<ItemText>)>,
    title: Seq<char>,
    items: Seq<ItemText>,
)
    ensures
        found_groups(query, names, Seq::empty()) == Seq::<(Seq<char>, Seq<ItemText>)>::empty(),
        found_groups(query, names, all.push((title, items))) == if found_items(
            query,
            names,
            items,
        ).len() == 0 {
            found_groups(query, names, all)
        } else {
            found_groups(query, names, all).push((title, found_items(query, names, items)))
        },
{
    assert(all.push((title, items)).drop_last() =~= all);
}

/// A heading is the whole title with the number of the items in brackets.
pub proof fn law_heading_counts_the_items(title: Seq<char>, count: nat)
    ensures
        heading_of(title, count) == title + (" ("@ + (text::decimal(count) + ")"@)),
        text::has(heading_of(title, count), title),
{
    let heading = heading_of(title, count);
    let tail = " ("@ + text::decimal(count) + ")"@;
    assert(heading =~= title + (" ("@ + (text::decimal(count) + ")"@)));
    assert(heading =~= Seq::<char>::empty() + title + tail);
    text::law_text_with_a_word(heading, title);
}

} // verus!
