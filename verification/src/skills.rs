//! The skills that are loaded, and how they are loaded anew.

use crate::gateway::commands;
use crate::gateway::commands::CategoryInfo;
use crate::gateway::commands::CategoryView;
use crate::text;
use crate::text::Text;
use vstd::prelude::*;
use vstd::string::*;

verus! {

/// A skill.
pub struct SkillDefinition<S = String> {
    pub name: S,
    pub description: S,
    pub content: S,
    /// Where it comes from.
    pub source: S,
    pub path: Option<S>,
    pub category: S,
}

/// What a `SkillDefinition` holds.
pub type SkillView = SkillDefinition<Text>;

impl View for SkillDefinition<String> {
    type V = SkillDefinition<Text>;

    open spec fn view(&self) -> SkillDefinition<Text> {
        SkillDefinition {
            name: self.name@,
            description: self.description@,
            content: self.content@,
            source: self.source@,
            path: text::opt_text(self.path),
            category: self.category@,
        }
    }
}

impl SkillDefinition<String> {
    /// A copy of the skill.
    pub fn copy(&self) -> (r: SkillDefinition<String>)
        ensures
            r@ == self@,
    {
        SkillDefinition {
            name: text::copy(self.name.as_str()),
            description: text::copy(self.description.as_str()),
            content: text::copy(self.content.as_str()),
            source: text::copy(self.source.as_str()),
            path: text::copy_opt(&self.path),
            category: text::copy(self.category.as_str()),
        }
    }
}

/// What a list of skills holds.
pub open spec fn skills_view(v: Seq<SkillDefinition>) -> Seq<SkillView> {
    Seq::new(v.len(), |i: int| v[i]@)
}

/// The skills that are loaded, and their groups, each name once.
pub struct SkillRegistry {
    pub skills: Vec<SkillDefinition>,
    pub categories: Vec<CategoryInfo>,
}

/// What a `SkillRegistry` holds.
#[verifier::ext_equal]
pub struct RegistryView {
    pub skills: Seq<SkillView>,
    pub categories: Seq<CategoryView>,
}

impl View for SkillRegistry {
    type V = RegistryView;

    open spec fn view(&self) -> RegistryView {
        RegistryView {
            skills: skills_view(self.skills@),
            categories: commands::categories_view(self.categories@),
        }
    }
}

/// Which skills do not come from the user.
pub open spec fn is_bundled() -> spec_fn(SkillView) -> bool {
    |s: SkillView| s.source != "user"@
}

/// The skills that do not come from the user.
pub open spec fn bundled(skills: Seq<SkillView>) -> Seq<SkillView> {
    skills.filter(is_bundled())
}

/// Whether a skill has a name.
pub open spec fn has_name(skills: Seq<SkillView>, name: Text) -> bool {
    exists|i: int| 0 <= i < skills.len() && (#[trigger] skills[i]).name == name
}

/// Which names are of such skills.
pub open spec fn named_in(skills: Seq<SkillView>) -> spec_fn(Text) -> bool {
    |name: Text| has_name(skills, name)
}

/// Where the group of a name stands; the number of groups, where there is none.
pub open spec fn category_place(categories: Seq<CategoryView>, name: Text) -> int
    decreases categories.len(),
{
    if categories.len() == 0 || categories[0].name == name {
        0
    } else {
        1 + category_place(categories.drop_first(), name)
    }
}

/// Names with others added that are not among them.
pub open spec fn with_names(names: Seq<Text>, more: Seq<Text>) -> Seq<Text>
    decreases more.len(),
{
    if more.len() == 0 {
        names
    } else {
        let before = with_names(names, more.drop_last());
        if before.contains(more.last()) {
            before
        } else {
            before.push(more.last())
        }
    }
}

/// Groups with the bundled skills of another group added.
pub open spec fn with_category(
    categories: Seq<CategoryView>,
    old_one: CategoryView,
    kept: Seq<SkillView>,
) -> Seq<CategoryView> {
    let names = old_one.skill_names.filter(named_in(kept));
    let i = category_place(categories, old_one.name);
    if names.len() == 0 {
        categories
    } else if i < categories.len() {
        categories.update(
            i,
            CategoryView {
                skill_names: with_names(categories[i].skill_names, names),
                ..categories[i]
            },
        )
    } else {
        categories.push(
            CategoryView {
                name: old_one.name,
                description: old_one.description,
                skill_names: with_names(Seq::empty(), names),
            },
        )
    }
}

/// Groups with the bundled skills of the first `n` other groups added.
pub open spec fn with_categories(
    categories: Seq<CategoryView>,
    old_ones: Seq<CategoryView>,
    kept: Seq<SkillView>,
    n: int,
) -> Seq<CategoryView>
    decreases n,
{
    if n <= 0 {
        categories
    } else {
        with_category(
            with_categories(categories, old_ones, kept, n - 1),
            old_ones[n - 1],
            kept,
        )
    }
}

/// The registry after the user's skills were loaded anew: the bundled skills of
/// before, and the fresh ones.
pub open spec fn reloaded(current: RegistryView, fresh: RegistryView) -> RegistryView {
    let kept = bundled(current.skills);
    RegistryView {
        skills: kept + fresh.skills,
        categories: with_categories(
            fresh.categories,
            current.categories,
            kept,
            current.categories.len() as int,
        ),
    }
}

fn keep_bundled(skills: &Vec<SkillDefinition>) -> (r: Vec<SkillDefinition>)
    ensures
        skills_view(r@) == bundled(skills_view(skills@)),
{
    let ghost all = skills_view(skills@);
    let mut out: Vec<SkillDefinition> = Vec::new();
    let mut i: usize = 0;
    assert(all.take(0).filter(is_bundled()) =~= Seq::<SkillView>::empty()) by {
        assert(all.take(0) =~= Seq::<SkillView>::empty());
        reveal(Seq::filter);
    }
    while i < skills.len()
        invariant
            i <= skills@.len(),
            all == skills_view(skills@),
            skills_view(out@) == all.take(i as int).filter(is_bundled()),
        decreases skills@.len() - i,
    {
        proof {
            assert(all.take(i + 1) =~= all.take(i as int).push(all[i as int]));
            all.take(i as int).lemma_filter_push(all[i as int], is_bundled());
        }
        if !text::same(skills[i].source.as_str(), "user") {
            let ghost was = skills_view(out@);
            out.push(skills[i].copy());
            assert(skills_view(out@) =~= was.push(all[i as int]));
        }
        i = i + 1;
    }
    assert(all.take(i as int) =~= all);
    out
}

fn is_named(skills: &Vec<SkillDefinition>, name: &str) -> (r: bool)
    ensures
        r == has_name(skills_view(skills@), name@),
{
    let ghost all = skills_view(skills@);
    let mut i: usize = 0;
    while i < skills.len()
        invariant
            i <= skills@.len(),
            all == skills_view(skills@),
            forall|k: int| 0 <= k < i ==> (#[trigger] all[k]).name != name@,
        decreases skills@.len() - i,
    {
        if text::same(skills[i].name.as_str(), name) {
            assert(all[i as int].name == name@);
            return true;
        }
        i = i + 1;
    }
    false
}

fn names_kept(names: &Vec<String>, kept: &Vec<SkillDefinition>) -> (r: Vec<String>)
    ensures
        text::texts(r@) == text::texts(names@).filter(named_in(skills_view(kept@))),
{
    let ghost all = text::texts(names@);
    let ghost pred = named_in(skills_view(kept@));
    let mut out: Vec<String> = Vec::new();
    let mut i: usize = 0;
    assert(all.take(0).filter(pred) =~= Seq::<Text>::empty()) by {
        assert(all.take(0) =~= Seq::<Text>::empty());
        reveal(Seq::filter);
    }
    assert(text::texts(out@) =~= Seq::<Text>::empty());
    while i < names.len()
        invariant
            i <= names@.len(),
            all == text::texts(names@),
            pred == named_in(skills_view(kept@)),
            text::texts(out@) == all.take(i as int).filter(pred),
        decreases names@.len() - i,
    {
        proof {
            assert(all.take(i + 1) =~= all.take(i as int).push(all[i as int]));
            all.take(i as int).lemma_filter_push(all[i as int], pred);
        }
        if is_named(kept, names[i].as_str()) {
            text::push_text(&mut out, text::copy(names[i].as_str()));
        }
        i = i + 1;
    }
    assert(all.take(i as int) =~= all);
    out
}

fn contains_text(list: &Vec<String>, name: &str) -> (r: bool)
    ensures
        r == text::texts(list@).contains(name@),
{
    let ghost all = text::texts(list@);
    let mut i: usize = 0;
    while i < list.len()
        invariant
            i <= list@.len(),
            all == text::texts(list@),
            forall|k: int| 0 <= k < i ==> #[trigger] all[k] != name@,
        decreases list@.len() - i,
    {
        if text::same(list[i].as_str(), name) {
            assert(all[i as int] == name@);
            return true;
        }
        i = i + 1;
    }
    false
}

fn add_names(names: &mut Vec<String>, more: &Vec<String>)
    ensures
        text::texts(final(names)@) == with_names(text::texts(old(names)@), text::texts(more@)),
{
    let ghost first = text::texts(names@);
    let ghost all = text::texts(more@);
    let mut i: usize = 0;
    assert(with_names(first, all.take(0)) == first);
    while i < more.len()
        invariant
            i <= more@.len(),
            all == text::texts(more@),
            text::texts(names@) == with_names(first, all.take(i as int)),
        decreases more@.len() - i,
    {
        assert(all.take(i + 1).drop_last() =~= all.take(i as int));
        assert(all.take(i + 1).last() == more@[i as int]@);
        if !contains_text(names, more[i].as_str()) {
            text::push_text(names, text::copy(more[i].as_str()));
        }
        i = i + 1;
    }
    assert(all.take(i as int) =~= all);
}

fn find_category(categories: &Vec<CategoryInfo>, name: &str) -> (r: usize)
    ensures
        r == category_place(commands::categories_view(categories@), name@),
        r <= categories@.len(),
{
    let ghost all = commands::categories_view(categories@);
    let mut i: usize = 0;
    assert(all.skip(0) =~= all);
    while i < categories.len() && !text::same(categories[i].name.as_str(), name)
        invariant
            i <= categories@.len(),
            all == commands::categories_view(categories@),
            category_place(all, name@) == i + category_place(all.skip(i as int), name@),
        decreases categories@.len() - i,
    {
        assert(all.skip(i as int)[0] == categories@[i as int]@);
        assert(all.skip(i as int).drop_first() =~= all.skip(i + 1));
        i = i + 1;
    }
    proof {
        if i < categories@.len() {
            assert(all.skip(i as int)[0] == categories@[i as int]@);
        }
    }
    i
}

fn add_category(
    categories: &mut Vec<CategoryInfo>,
    old_one: &CategoryInfo,
    kept: &Vec<SkillDefinition>,
)
    ensures
        commands::categories_view(final(categories)@) == with_category(
            commands::categories_view(old(categories)@),
            old_one@,
            skills_view(kept@),
        ),
{
    let ghost before = commands::categories_view(categories@);
    let names = names_kept(&old_one.skill_names, kept);
    assert(text::texts(names@).len() == names@.len());
    if names.len() == 0 {
        return ;
    }
    let i: usize = find_category(categories, old_one.name.as_str());
    if i < categories.len() {
        let mut list = text::copy_all(&categories[i].skill_names);
        add_names(&mut list, &names);
        let changed = CategoryInfo {
            name: text::copy(categories[i].name.as_str()),
            description: text::copy(categories[i].description.as_str()),
            skill_names: list,
        };
        let ghost shown = changed@;
        assert(shown == (CategoryView {
            skill_names: with_names(before[i as int].skill_names, text::texts(names@)),
            ..before[i as int]
        }));
        categories.set(i, changed);
        assert(commands::categories_view(categories@) =~= before.update(i as int, shown));
    } else {
        let mut list: Vec<String> = Vec::new();
        assert(text::texts(list@) =~= Seq::<Text>::empty());
        add_names(&mut list, &names);
        let added = CategoryInfo {
            name: text::copy(old_one.name.as_str()),
            description: text::copy(old_one.description.as_str()),
            skill_names: list,
        };
        let ghost shown = added@;
        categories.push(added);
        assert(commands::categories_view(categories@) =~= before.push(shown));
    }
}

/// Load the user's skills anew: what is bundled stays, and the fresh ones take
/// the place of the user's.
pub fn reload_registry(current: &SkillRegistry, fresh: SkillRegistry) -> (r: SkillRegistry)
    ensures
        r@ == reloaded(current@, fresh@),
{
    let ghost new_ones = fresh@;
    let kept = keep_bundled(&current.skills);
    let ghost kept_view = skills_view(kept@);
    let mut categories = fresh.categories;
    let ghost first = commands::categories_view(categories@);
    let ghost old_ones = commands::categories_view(current.categories@);
    let mut i: usize = 0;
    while i < current.categories.len()
        invariant
            i <= current.categories@.len(),
            old_ones == commands::categories_view(current.categories@),
            kept_view == skills_view(kept@),
            commands::categories_view(categories@) == with_categories(
                first,
                old_ones,
                kept_view,
                i as int,
            ),
        decreases current.categories@.len() - i,
    {
        assert(old_ones[i as int] == current.categories@[i as int]@);
        add_category(&mut categories, &current.categories[i], &kept);
        i = i + 1;
    }
    let mut skills = kept;
    let mut more = fresh.skills;
    let ghost added = more@;
    skills.append(&mut more);
    assert(skills_view(skills@) =~= kept_view + skills_view(added));
    SkillRegistry { skills, categories }
}

/// Loading anew keeps every bundled skill, and of the user's none but the fresh
/// ones.
pub proof fn law_reloading_keeps_bundled_skills(
    current: RegistryView,
    fresh: RegistryView,
    s: SkillView,
)
    requires
        current.skills.contains(s),
    ensures
        s.source != "user"@ ==> reloaded(current, fresh).skills.contains(s),
        s.source == "user"@ && reloaded(current, fresh).skills.contains(s)
            ==> fresh.skills.contains(s),
{
    let kept = bundled(current.skills);
    let all = reloaded(current, fresh).skills;
    if s.source != "user"@ {
        let i = choose|i: int| 0 <= i < current.skills.len() && current.skills[i] == s;
        current.skills.lemma_filter_contains(is_bundled(), i);
        let k = choose|k: int| 0 <= k < kept.len() && kept[k] == s;
        assert(all[k] == s);
    } else if all.contains(s) {
        let k = choose|k: int| 0 <= k < all.len() && all[k] == s;
        if k < kept.len() {
            assert(kept[k] == s);
            current.skills.lemma_filter_pred(is_bundled(), k);
        } else {
            assert(fresh.skills[k - kept.len()] == s);
        }
    }
}

/// Loading anew brings in every fresh skill, behind the bundled ones, in its order.
pub proof fn law_reloading_brings_the_fresh_skills(
    current: RegistryView,
    fresh: RegistryView,
    i: int,
)
    requires
        0 <= i < fresh.skills.len(),
    ensures
        reloaded(current, fresh).skills.contains(fresh.skills[i]),
        reloaded(current, fresh).skills.len() == fresh.skills.len() + current.skills.filter(
            |s: SkillView| s.source != "user"@,
        ).len(),
{
    let kept = bundled(current.skills);
    let all = reloaded(current, fresh).skills;
    assert(all[kept.len() + i] == fresh.skills[i]);
    let pred = |s: SkillView| s.source != "user"@;
    assert(pred =~= is_bundled());
}

} // verus!
