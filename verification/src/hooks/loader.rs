//! Takes the hooks out of a configuration.

use crate::hooks::executor;
use crate::hooks::executor::EntryRead;
use crate::hooks::executor::ExecutorView;
use crate::hooks::executor::HookError;
use crate::hooks::executor::HookExecutor;
use crate::hooks::executor::EVENT_FIELD;
use crate::hooks::executor::HOOK_LIST;
use crate::hooks::types;
use crate::hooks::types::HookEvent;
use crate::text::Text;
use vstd::prelude::*;
use vstd::string::*;

verus! {

/// `mlua::Lua::named_registry_value` and `mlua::Table::sequence_values`: how many tables
/// the machine's list has, up to the first hole; nothing where there is no list. It
/// rests on the user's configuration, so nothing is said of it.
#[verifier::external_body]
fn count_listed(lua: &mlua::Lua, list: &str) -> Result<Option<usize>, mlua::Error>
    requires
        list@ == HOOK_LIST@,
{
    match lua.named_registry_value::<mlua::Table>(list) {
        Ok(entries) => {
            let tables: Result<Vec<mlua::Table>, mlua::Error> = entries.sequence_values().collect();
            Ok(Some(tables?.len()))
        },
        Err(_) => Ok(None),
    }
}

/// `mlua::Table::get` for a string: what an entry of the machine's list, found by
/// `mlua::Lua::named_registry_value` and `mlua::Table::raw_get`, holds under a name. It
/// rests on the user's configuration, so nothing is said of it.
#[verifier::external_body]
fn listed_text(lua: &mlua::Lua, list: &str, place: usize, field: &str) -> Result<
    String,
    mlua::Error,
>
    requires
        list@ == HOOK_LIST@,
        field@ == EVENT_FIELD@,
{
    let entries: mlua::Table = lua.named_registry_value(list)?;
    let entry: mlua::Table = entries.raw_get(place)?;
    entry.get(field)
}

/// Whether a machine, asked how many hooks its list has, may have come to this.
pub closed spec fn list_counted(lua: mlua::Lua, counted: Result<Option<usize>, mlua::Error>) -> bool {
    exists|list: &str|
        list@ == HOOK_LIST@ && #[trigger] call_ensures(count_listed, (&lua, list), counted)
}

/// Whether a machine, asked for the name of an entry of its list, may have come to this.
pub closed spec fn name_listed(
    lua: mlua::Lua,
    read: EntryRead<Text>,
    name: Result<String, mlua::Error>,
) -> bool {
    exists|list: &str, field: &str|
        list@ == read.list && field@ == read.event && #[trigger] call_ensures(
            listed_text,
            (&lua, list, read.place, field),
            name,
        )
}

fn read_name(lua: &mlua::Lua, read: &EntryRead) -> (r: Result<String, mlua::Error>)
    requires
        read@ == executor::entry_at(read.place),
    ensures
        name_listed(*lua, read@, r),
{
    listed_text(lua, read.list.as_str(), read.place, read.event.as_str())
}

fn count_hooks(lua: &mlua::Lua) -> (r: Result<Option<usize>, mlua::Error>)
    ensures
        list_counted(*lua, r),
{
    count_listed(lua, HOOK_LIST)
}

/// Whether an entry is what was read at a place of the machine's list: its name, and
/// where its function is kept.
pub open spec fn is_entry(
    lua: mlua::Lua,
    read: EntryRead<Text>,
    entry: (Text, mlua::RegistryKey),
) -> bool {
    &&& exists|name: String| name@ == entry.0 && #[trigger] name_listed(lua, read, Ok(name))
    &&& executor::function_kept(lua, read, Ok(entry.1))
}

/// Whether an error is why a place of the machine's list could not be read.
pub open spec fn is_failure(lua: mlua::Lua, read: EntryRead<Text>, e: mlua::Error) -> bool {
    name_listed(lua, read, Err(e)) || executor::function_kept(lua, read, Err(e))
}

/// Whether a machine's list was read to this, where it has so many hooks: each place
/// once, from the first on, up to the first that could not be read.
pub open spec fn are_entries(
    lua: mlua::Lua,
    count: usize,
    entries: Seq<(Text, mlua::RegistryKey)>,
    failure: Option<mlua::Error>,
) -> bool {
    &&& list_counted(lua, Ok(Some(count)))
    &&& entries.len() <= count
    &&& forall|k: int|
        0 <= k < entries.len() ==> is_entry(
            lua,
            executor::entry_at((k + 1) as usize),
            #[trigger] entries[k],
        )
    &&& match failure {
        Some(e) => entries.len() < count && is_failure(
            lua,
            executor::entry_at((entries.len() + 1) as usize),
            e,
        ),
        None => entries.len() == count,
    }
}

/// Whether this is what was read of a machine's list of hooks.
pub open spec fn was_read(lua: mlua::Lua, read: ListView) -> bool {
    match read {
        None => list_counted(lua, Ok(None)),
        Some((entries, failure)) => {
            ||| entries.len() == 0 && (failure matches Some(e) && list_counted(lua, Err(e)))
            ||| exists|count: usize| #[trigger] are_entries(lua, count, entries, failure)
        },
    }
}

/// What was read of a configuration's list of hooks: nothing where it has no list;
/// else the entries up to the first that could not be read, each with its name and
/// where its function is kept, and why that one could not.
pub type ListRead = Option<(Vec<(String, mlua::RegistryKey)>, Option<mlua::Error>)>;

/// What a `ListRead` holds.
pub type ListView = Option<(Seq<(Text, mlua::RegistryKey)>, Option<mlua::Error>)>;

/// What a list of entries holds.
pub open spec fn entries_view(v: Seq<(String, mlua::RegistryKey)>) -> Seq<
    (Text, mlua::RegistryKey),
> {
    Seq::new(v.len(), |i: int| (v[i].0@, v[i].1))
}

/// What was read of a configuration's list of hooks.
pub open spec fn list_view(read: ListRead) -> ListView {
    match read {
        Some((entries, failure)) => Some((entries_view(entries@), failure)),
        None => None,
    }
}

/// The hook of an entry, where its name is that of an event.
pub open spec fn known_hook(entry: (Text, mlua::RegistryKey)) -> Option<
    (HookEvent, mlua::RegistryKey),
> {
    match types::event_of(entry.0) {
        Some(event) => Some((event, entry.1)),
        None => None,
    }
}

/// The hooks of the entries whose names are known, in their order.
pub open spec fn known_hooks(entries: Seq<(Text, mlua::RegistryKey)>) -> Seq<
    (HookEvent, mlua::RegistryKey),
> {
    entries.filter_map(|e: (Text, mlua::RegistryKey)| known_hook(e))
}

/// What loading hooks comes to, by what was read of their list. Without a list, or
/// without a hook for a known event, there is no executor. An entry that cannot be read
/// is an error.
pub open spec fn loaded(lua: mlua::Lua, read: ListView) -> Result<
    Option<ExecutorView>,
    mlua::Error,
> {
    match read {
        None => Ok(None),
        Some((entries, failure)) => match failure {
            Some(e) => Err(e),
            None => if known_hooks(entries).len() == 0 {
                Ok(None)
            } else {
                Ok(Some(ExecutorView { lua, hooks: known_hooks(entries) }))
            },
        },
    }
}

/// What a result of loading holds.
pub open spec fn outcome_view(r: Result<Option<HookExecutor>, HookError>) -> Result<
    Option<ExecutorView>,
    mlua::Error,
> {
    match r {
        Ok(Some(x)) => Ok(Some(x@)),
        Ok(None) => Ok(None),
        Err(e) => Err(e.cause),
    }
}

/// Set up the hooks that were read of a configuration. Those of unknown names are
/// passed over.
pub fn take_hooks(lua: mlua::Lua, read: ListRead) -> (r: Result<Option<HookExecutor>, HookError>)
    ensures
        outcome_view(r) == loaded(lua, list_view(read)),
{
    let (entries, failure) = match read {
        Some(pair) => pair,
        None => {
            return Ok(None);
        },
    };
    if let Some(cause) = failure {
        return Err(HookError { cause });
    }
    let ghost all = entries_view(entries@);
    let ghost f = |e: (Text, mlua::RegistryKey)| known_hook(e);
    let mut executor = HookExecutor::new(lua);
    let mut rest = entries;
    let n: usize = rest.len();
    let mut i: usize = 0;
    assert(all.take(0).filter_map(f) =~= Seq::<(HookEvent, mlua::RegistryKey)>::empty()) by {
        assert(all.take(0) =~= Seq::<(Text, mlua::RegistryKey)>::empty());
    }
    while i < n
        invariant
            i <= n,
            n == all.len(),
            rest@.len() == n - i,
            forall|k: int|
                0 <= k < n - i ==> ((#[trigger] rest@[k]).0@, rest@[k].1) == all[i + k],
            f == (|e: (Text, mlua::RegistryKey)| known_hook(e)),
            executor@ == (ExecutorView { lua, hooks: all.take(i as int).filter_map(f) }),
        decreases n - i,
    {
        proof {
            all.lemma_filter_map_take_succ(f, i as int);
        }
        let ghost before = executor@.hooks;
        let (name, key) = rest.remove(0);
        assert((name@, key) == all[i as int]);
        if let Some(event) = types::event_named(name.as_str()) {
            assert(f(all[i as int]) == Some((event, key)));
            assert(all.take(i + 1).filter_map(f) =~= before.push((event, key)));
            let kept = executor.add_kept(event, Ok(key));
            assert(kept is Ok);
        } else {
            assert(all.take(i + 1).filter_map(f) =~= before);
        }
        i = i + 1;
    }
    assert(all.take(i as int) =~= all);
    assert(known_hooks(all) == all.filter_map(f));
    if executor.hook_count() == 0 {
        return Ok(None);
    }
    Ok(Some(executor))
}

/// Take the hooks out of a configuration: the executor for them, with the machine
/// that they live in, unless there are none. The entries of the list are read as
/// `planned_reads` says, up to the first that cannot be.
pub fn load_hooks(lua: mlua::Lua) -> (r: Result<Option<HookExecutor>, HookError>)
    ensures
        exists|read: ListView|
            was_read(lua, read) && outcome_view(r) == #[trigger] loaded(lua, read),
{
    let mut entries: Vec<(String, mlua::RegistryKey)> = Vec::new();
    let n: usize = match count_hooks(&lua) {
        Ok(Some(n)) => n,
        Ok(None) => {
            assert(was_read(lua, None));
            return take_hooks(lua, None);
        },
        Err(e) => {
            let read = Some((entries, Some(e)));
            assert(was_read(lua, list_view(read)));
            return take_hooks(lua, read);
        },
    };
    let reads = executor::planned_reads(n);
    let mut i: usize = 0;
    assert(executor::reads_view(reads@).len() == executor::entries_of(n).len());
    while i < reads.len()
        invariant
            i <= reads@.len(),
            reads@.len() == n,
            list_counted(lua, Ok(Some(n))),
            executor::reads_view(reads@) == executor::entries_of(n),
            entries@.len() == i,
            forall|k: int|
                0 <= k < i ==> is_entry(
                    lua,
                    executor::entry_at((k + 1) as usize),
                    #[trigger] entries_view(entries@)[k],
                ),
        decreases reads@.len() - i,
    {
        let read = &reads[i];
        assert(executor::reads_view(reads@)[i as int] == read@);
        assert(executor::entries_of(n)[i as int] == executor::entry_at((i + 1) as usize)) by {
            assert(executor::entries_of(n).len() == n);
        }
        let ghost so_far = entries_view(entries@);
        let name = match read_name(&lua, read) {
            Ok(name) => name,
            Err(e) => {
                let found = Some((entries, Some(e)));
                assert(is_failure(lua, read@, e));
                assert(are_entries(lua, n, so_far, Some(e)));
                assert(was_read(lua, list_view(found)));
                return take_hooks(lua, found);
            },
        };
        let key = match executor::keep_entry(&lua, read) {
            Ok(key) => key,
            Err(e) => {
                let found = Some((entries, Some(e)));
                assert(is_failure(lua, read@, e));
                assert(are_entries(lua, n, so_far, Some(e)));
                assert(was_read(lua, list_view(found)));
                return take_hooks(lua, found);
            },
        };
        assert(is_entry(lua, read@, (name@, key)));
        let ghost added = (name@, key);
        entries.push((name, key));
        assert(entries_view(entries@) =~= so_far.push(added));
        i = i + 1;
    }
    let found = Some((entries, None));
    assert(are_entries(lua, n, entries_view(entries@), None));
    assert(was_read(lua, list_view(found)));
    take_hooks(lua, found)
}

/// Every entry whose name is that of an event becomes a hook for it, with its own function
/// and in its place; entries of other names are passed over.
pub proof fn law_known_entries_become_hooks(entries: Seq<(Text, mlua::RegistryKey)>, i: int)
    requires
        0 <= i < entries.len(),
    ensures
        match types::event_of(entries[i].0) {
            Some(event) => known_hooks(entries).contains((event, entries[i].1)),
            None => known_hooks(entries) == known_hooks(entries.remove(i)),
        },
        (forall|k: int| 0 <= k < entries.len() ==> types::event_of((#[trigger] entries[k]).0) is Some)
            ==> known_hooks(entries).len() == entries.len(),
    decreases entries.len(),
{
    let f = |e: (Text, mlua::RegistryKey)| known_hook(e);
    let rest = entries.drop_last();
    let n = entries.len() - 1;
    assert(entries.filter_map(f) == match f(entries.last()) {
        Some(x) => rest.filter_map(f) + seq![x],
        None => rest.filter_map(f),
    });
    if forall|k: int| 0 <= k < entries.len() ==> types::event_of((#[trigger] entries[k]).0) is Some {
        assert forall|k: int| 0 <= k < rest.len() implies types::event_of((#[trigger] rest[k]).0)
            is Some by {
            assert(rest[k] == entries[k]);
        }
        assert(types::event_of(entries[n].0) is Some);
        if n > 0 {
            law_known_entries_become_hooks(rest, 0);
        } else {
            assert(rest.filter_map(f) =~= Seq::<(HookEvent, mlua::RegistryKey)>::empty());
        }
    }
    if i < n {
        law_known_entries_become_hooks(rest, i);
        assert(rest[i] == entries[i]);
        match types::event_of(entries[i].0) {
            Some(event) => {
                let x = (event, entries[i].1);
                let inner = rest.filter_map(f);
                let k = choose|k: int| 0 <= k < inner.len() && inner[k] == x;
                assert(entries.filter_map(f)[k] == x);
            },
            None => {
                let less = entries.remove(i);
                assert(less.drop_last() =~= rest.remove(i));
                assert(less.last() == entries.last());
                assert(less.filter_map(f) == match f(less.last()) {
                    Some(x) => less.drop_last().filter_map(f) + seq![x],
                    None => less.drop_last().filter_map(f),
                });
            },
        }
    } else {
        match types::event_of(entries[i].0) {
            Some(event) => {
                let out = entries.filter_map(f);
                assert(out[out.len() - 1] == (event, entries[i].1));
            },
            None => {
                assert(entries.remove(i) =~= rest);
            },
        }
    }
}

} // verus!
