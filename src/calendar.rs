//! Calendars: a named collection of tasks, identified by its URL.
use vstd::prelude::*;
use crate::item::{ItemId, Task, TaskView};
use crate::tasks::{
    lemma_lookup_remove, lemma_lookup_update, lemma_push_unique,
    lemma_views_push, lookup, position, ref_views, unique_ids, views,
};
use crate::xml::{same_text, XmlNode};

verus! {

/// The kinds of component a calendar accepts, as a set of bits.
#[derive(Clone, Copy, Debug, PartialEq, Eq, Structural)]
pub struct SupportedComponents {
    pub bits: u8,
}

/// Bit of an event, such as a calendar meeting.
pub const EVENT_BIT: u8 = 1;

/// Bit of a to-do item, such as a reminder.
pub const TODO_BIT: u8 = 2;

/// Why a component set could not be read.
#[derive(Clone, Copy, Debug, PartialEq, Eq, Structural)]
pub enum ComponentSetError {
    /// The element is not a `<supported-calendar-component-set>`.
    WrongElement,
}

pub open spec fn component_set_tag() -> Seq<char> {
    "supported-calendar-component-set"@
}

pub open spec fn vevent() -> Seq<char> {
    "VEVENT"@
}

pub open spec fn vtodo() -> Seq<char> {
    "VTODO"@
}

/// The element carries `name="<kind>"`.
pub open spec fn named_kind(n: XmlNode, kind: Seq<char>) -> bool {
    match n.name_attr {
        Some(a) => a@ == kind,
        None => false,
    }
}

/// Some child carries `name="<kind>"`.
pub open spec fn declares(children: Seq<XmlNode>, kind: Seq<char>) -> bool {
    exists|i: int| 0 <= i < children.len() && named_kind(#[trigger] children[i], kind)
}

/// The bits that a component set with these children stands for: unknown names
/// are ignored.
pub open spec fn component_bits(children: Seq<XmlNode>) -> u8 {
    ((if declares(children, vevent()) { EVENT_BIT } else { 0u8 }) + (if declares(children, vtodo()) {
        TODO_BIT
    } else {
        0u8
    })) as u8
}

/// Children whose `name` is neither `VEVENT` nor `VTODO`, or that have no
/// `name`, change nothing in the bits that a component set stands for.
pub proof fn law_unknown_components_ignored(known: Seq<XmlNode>, other: Seq<XmlNode>)
    requires
        forall|i: int| 0 <= i < other.len() ==> !named_kind(#[trigger] other[i], vevent()) && !named_kind(other[i], vtodo()),
    ensures
        component_bits(known + other) == component_bits(known),
        component_bits(other + known) == component_bits(known),
{
    let a = known + other;
    let b = other + known;
    assert(declares(a, vevent()) == declares(known, vevent())) by {
        if declares(a, vevent()) {
            let i = choose|i: int| 0 <= i < a.len() && named_kind(#[trigger] a[i], vevent());
            if i >= known.len() {
                assert(a[i] == other[i - known.len()]);
            } else {
                assert(a[i] == known[i]);
            }
        }
        if declares(known, vevent()) {
            let i = choose|i: int| 0 <= i < known.len() && named_kind(#[trigger] known[i], vevent());
            assert(a[i] == known[i]);
        }
    }
    assert(declares(a, vtodo()) == declares(known, vtodo())) by {
        if declares(a, vtodo()) {
            let i = choose|i: int| 0 <= i < a.len() && named_kind(#[trigger] a[i], vtodo());
            if i >= known.len() {
                assert(a[i] == other[i - known.len()]);
            } else {
                assert(a[i] == known[i]);
            }
        }
        if declares(known, vtodo()) {
            let i = choose|i: int| 0 <= i < known.len() && named_kind(#[trigger] known[i], vtodo());
            assert(a[i] == known[i]);
        }
    }
    assert(declares(b, vevent()) == declares(known, vevent())) by {
        if declares(b, vevent()) {
            let i = choose|i: int| 0 <= i < b.len() && named_kind(#[trigger] b[i], vevent());
            if i < other.len() {
                assert(b[i] == other[i]);
            } else {
                assert(b[i] == known[i - other.len()]);
            }
        }
        if declares(known, vevent()) {
            let i = choose|i: int| 0 <= i < known.len() && named_kind(#[trigger] known[i], vevent());
            assert(b[i + other.len()] == known[i]);
        }
    }
    assert(declares(b, vtodo()) == declares(known, vtodo())) by {
        if declares(b, vtodo()) {
            let i = choose|i: int| 0 <= i < b.len() && named_kind(#[trigger] b[i], vtodo());
            if i < other.len() {
                assert(b[i] == other[i]);
            } else {
                assert(b[i] == known[i - other.len()]);
            }
        }
        if declares(known, vtodo()) {
            let i = choose|i: int| 0 <= i < known.len() && named_kind(#[trigger] known[i], vtodo());
            assert(b[i + other.len()] == known[i]);
        }
    }
}

impl SupportedComponents {
    pub fn empty() -> (r: SupportedComponents)
        ensures
            r.bits == 0,
    {
        SupportedComponents { bits: 0 }
    }

    pub fn event() -> (r: SupportedComponents)
        ensures
            r.bits == EVENT_BIT,
    {
        SupportedComponents { bits: EVENT_BIT }
    }

    pub fn todo() -> (r: SupportedComponents)
        ensures
            r.bits == TODO_BIT,
    {
        SupportedComponents { bits: TODO_BIT }
    }

    pub fn contains(&self, other: SupportedComponents) -> (r: bool)
        ensures
            r == (self.bits & other.bits == other.bits),
    {
        self.bits & other.bits == other.bits
    }

    /// Reads a `<supported-calendar-component-set>` element: each child's
    /// `name` attribute `VEVENT` or `VTODO` sets the matching bit; other names
    /// and children without a name are ignored.
    pub fn try_from(element: &XmlNode) -> (r: Result<SupportedComponents, ComponentSetError>)
        ensures
            element.name@ == component_set_tag() ==> r == Ok::<SupportedComponents, ComponentSetError>(
                SupportedComponents { bits: component_bits(element.children@) },
            ),
            element.name@ != component_set_tag() ==> r == Err::<SupportedComponents, ComponentSetError>(
                ComponentSetError::WrongElement,
            ),
    {
        proof {
            reveal_strlit("supported-calendar-component-set");
            reveal_strlit("VEVENT");
            reveal_strlit("VTODO");
        }
        if !same_text(element.name.as_str(), "supported-calendar-component-set") {
            return Err(ComponentSetError::WrongElement);
        }
        let ghost ch = element.children@;
        let mut event = false;
        let mut todo = false;
        let mut i: usize = 0;
        while i < element.children.len()
            invariant
                i <= ch.len(),
                ch == element.children@,
                event == exists|j: int| 0 <= j < i && named_kind(#[trigger] ch[j], vevent()),
                todo == exists|j: int| 0 <= j < i && named_kind(#[trigger] ch[j], vtodo()),
            decreases ch.len() - i,
        {
            proof {
                reveal_strlit("VEVENT");
                reveal_strlit("VTODO");
            }
            if let Some(a) = &element.children[i].name_attr {
                if same_text(a.as_str(), "VEVENT") {
                    event = true;
                }
                if same_text(a.as_str(), "VTODO") {
                    todo = true;
                }
            }
            i = i + 1;
        }
        let bits: u8 = if event { EVENT_BIT } else { 0 };
        let bits: u8 = if todo { bits + TODO_BIT } else { bits };
        Ok(SupportedComponents { bits })
    }
}

/// The position of the task with the given identifier.
pub open spec fn index_of(s: Seq<TaskView>, id: ItemId) -> int {
    choose|k: int| 0 <= k < s.len() && s[k].id == id
}

/// The mathematical value of a calendar.
pub struct CalendarView {
    pub name: Seq<char>,
    pub id: Seq<char>,
    pub components: SupportedComponents,
    pub tasks: Seq<TaskView>,
}

/// A calendar: a display name, the URL that identifies it, the kinds of
/// component it accepts, and its tasks.
#[derive(Debug)]
pub struct Calendar {
    name: String,
    url: String,
    supported_components: SupportedComponents,
    tasks: Vec<Task>,
}

impl View for Calendar {
    type V = CalendarView;

    closed spec fn view(&self) -> CalendarView {
        CalendarView {
            name: self.name@,
            id: self.url@,
            components: self.supported_components,
            tasks: views(self.tasks@),
        }
    }
}

impl Calendar {
    /// Every task identifier occurs once.
    pub open spec fn wf(&self) -> bool {
        unique_ids(self@.tasks)
    }

    /// An empty calendar.
    pub fn new(name: String, url: String, supported_components: SupportedComponents) -> (r: Calendar)
        ensures
            r.wf(),
            r@ == (CalendarView {
                name: name@,
                id: url@,
                components: supported_components,
                tasks: Seq::empty(),
            }),
    {
        let r = Calendar { name, url, supported_components, tasks: Vec::new() };
        assert(views(r.tasks@) =~= Seq::<TaskView>::empty());
        r
    }

    pub fn name(&self) -> (r: &str)
        ensures
            r@ == self@.name,
    {
        self.name.as_str()
    }

    /// The URL that identifies this calendar.
    pub fn id(&self) -> (r: &String)
        ensures
            r@ == self@.id,
    {
        &self.url
    }

    pub fn supported_components(&self) -> (r: SupportedComponents)
        ensures
            r == self@.components,
    {
        self.supported_components
    }

    /// The tasks, in the order they are held.
    pub fn tasks(&self) -> (r: Vec<&Task>)
        ensures
            ref_views(r@) == self@.tasks,
    {
        let mut out: Vec<&Task> = Vec::new();
        let mut i: usize = 0;
        while i < self.tasks.len()
            invariant
                i <= self.tasks.len(),
                out.len() == i,
                ref_views(out@) == views(self.tasks@).take(i as int),
            decreases self.tasks.len() - i,
        {
            let ghost prev = out@;
            out.push(&self.tasks[i]);
            proof {
                assert(out@ == prev.push(&self.tasks@[i as int]));
                assert(ref_views(prev) =~= views(self.tasks@).take(i as int));
                assert forall|k: int| 0 <= k <= i implies #[trigger] ref_views(out@)[k]
                    == views(self.tasks@).take(i as int + 1)[k] by {
                    if k < i {
                        assert(out@[k] == prev[k]);
                        assert(ref_views(prev)[k] == views(self.tasks@).take(i as int)[k]);
                    }
                }
                assert(ref_views(out@) =~= views(self.tasks@).take(i as int + 1));
            }
            i = i + 1;
        }
        assert(views(self.tasks@).take(i as int) =~= views(self.tasks@));
        out
    }

    /// The task with the given identifier.
    pub fn task_by_id(&self, id: ItemId) -> (r: Option<&Task>)
        requires
            self.wf(),
        ensures
            match r {
                Some(t) => lookup(self@.tasks, id) == Some(t@),
                None => lookup(self@.tasks, id) is None,
            },
    {
        match position(&self.tasks, id) {
            Some(k) => Some(&self.tasks[k]),
            None => None,
        }
    }

    /// The task with the given identifier, to edit in place; `None` where it
    /// is not held. Its identifier must be left as it is.
    pub fn task_by_id_mut(&mut self, id: ItemId) -> (r: Option<&mut Task>)
        requires
            old(self).wf(),
        ensures
            match r {
                Some(t) => lookup(old(self)@.tasks, id) == Some(t@) && final(self)@ == (CalendarView {
                    tasks: old(self)@.tasks.update(index_of(old(self)@.tasks, id), final(t)@),
                    ..old(self)@
                }),
                None => lookup(old(self)@.tasks, id) is None && final(self)@ == old(self)@,
            },
    {
        match position(&self.tasks, id) {
            None => None,
            Some(k) => {
                proof {
                    let s = views(self.tasks@);
                    assert(s[k as int] == self.tasks@[k as int]@);
                    let c = index_of(s, id);
                    assert(0 <= c < s.len() && s[c].id == id);
                    assert(c == k);
                    assert forall|t: Task| #[trigger] views(self.tasks@.update(k as int, t)) == views(self.tasks@).update(k as int, t@) by {
                        assert(views(self.tasks@.update(k as int, t)) =~= views(self.tasks@).update(k as int, t@));
                    }
                }
                Some(&mut self.tasks[k])
            },
        }
    }

    /// Adds a task whose identifier is not held yet; returns whether it was added.
    pub fn add_item(&mut self, task: Task) -> (added: bool)
        requires
            old(self).wf(),
        ensures
            final(self).wf(),
            added == (lookup(old(self)@.tasks, task@.id) is None),
            final(self)@ == (CalendarView {
                tasks: if added { old(self)@.tasks.push(task@) } else { old(self)@.tasks },
                ..old(self)@
            }),
    {
        if position(&self.tasks, task.id()).is_some() {
            return false;
        }
        proof {
            lemma_views_push(self.tasks@, task);
            lemma_push_unique(views(self.tasks@), task@);
        }
        self.tasks.push(task);
        true
    }

    /// Replaces the task at `k` by one with the same identifier.
    fn replace_at(&mut self, k: usize, task: Task)
        requires
            old(self).wf(),
            k < old(self)@.tasks.len(),
            task@.id == old(self)@.tasks[k as int].id,
        ensures
            final(self).wf(),
            final(self)@ == (CalendarView { tasks: old(self)@.tasks.update(k as int, task@), ..old(self)@ }),
    {
        proof {
            lemma_lookup_update(views(self.tasks@), k as int, task@);
        }
        let ghost before = self.tasks@;
        self.tasks.remove(k);
        self.tasks.insert(k, task);
        assert(views(self.tasks@) =~= views(before).update(k as int, task@));
    }

    /// Renames the task with the given identifier, if held; returns whether it is.
    pub fn set_task_name(&mut self, id: ItemId, name: String) -> (found: bool)
        requires
            old(self).wf(),
        ensures
            final(self).wf(),
            found == (lookup(old(self)@.tasks, id) is Some),
            final(self)@.name == old(self)@.name,
            final(self)@.id == old(self)@.id,
            final(self)@.components == old(self)@.components,
            forall|j: ItemId| #[trigger] lookup(final(self)@.tasks, j) == if j == id && found {
                Some(TaskView {
                    name: name@,
                    status: lookup(old(self)@.tasks, id)->0.status.after_edit(),
                    ..lookup(old(self)@.tasks, id)->0
                })
            } else {
                lookup(old(self)@.tasks, j)
            },
    {
        match position(&self.tasks, id) {
            None => false,
            Some(k) => {
                let mut t = self.tasks[k].duplicate();
                t.set_name(name);
                proof {
                    lemma_lookup_update(views(self.tasks@), k as int, t@);
                }
                self.replace_at(k, t);
                true
            },
        }
    }

    /// Sets the completion of the task with the given identifier, if held.
    pub fn set_task_completed(&mut self, id: ItemId, completed: bool) -> (found: bool)
        requires
            old(self).wf(),
        ensures
            final(self).wf(),
            found == (lookup(old(self)@.tasks, id) is Some),
            final(self)@.name == old(self)@.name,
            final(self)@.id == old(self)@.id,
            final(self)@.components == old(self)@.components,
            forall|j: ItemId| #[trigger] lookup(final(self)@.tasks, j) == if j == id && found {
                Some(TaskView {
                    completed,
                    status: lookup(old(self)@.tasks, id)->0.status.after_edit(),
                    ..lookup(old(self)@.tasks, id)->0
                })
            } else {
                lookup(old(self)@.tasks, j)
            },
    {
        match position(&self.tasks, id) {
            None => false,
            Some(k) => {
                let mut t = self.tasks[k].duplicate();
                t.set_completed(completed);
                proof {
                    lemma_lookup_update(views(self.tasks@), k as int, t@);
                }
                self.replace_at(k, t);
                true
            },
        }
    }

    /// Records a pending deletion of the task with the given identifier, if held.
    pub fn mark_for_deletion(&mut self, id: ItemId) -> (found: bool)
        requires
            old(self).wf(),
        ensures
            final(self).wf(),
            found == (lookup(old(self)@.tasks, id) is Some),
            final(self)@.name == old(self)@.name,
            final(self)@.id == old(self)@.id,
            final(self)@.components == old(self)@.components,
            forall|j: ItemId| #[trigger] lookup(final(self)@.tasks, j) == if j == id && found {
                Some(TaskView {
                    status: lookup(old(self)@.tasks, id)->0.status.after_deletion(),
                    ..lookup(old(self)@.tasks, id)->0
                })
            } else {
                lookup(old(self)@.tasks, j)
            },
    {
        match position(&self.tasks, id) {
            None => false,
            Some(k) => {
                let mut t = self.tasks[k].duplicate();
                t.mark_deleted();
                proof {
                    lemma_lookup_update(views(self.tasks@), k as int, t@);
                }
                self.replace_at(k, t);
                true
            },
        }
    }

    /// Removes the task with the given identifier at once, if held.
    pub fn delete_item(&mut self, id: ItemId) -> (found: bool)
        requires
            old(self).wf(),
        ensures
            final(self).wf(),
            found == (lookup(old(self)@.tasks, id) is Some),
            final(self)@.name == old(self)@.name,
            final(self)@.id == old(self)@.id,
            final(self)@.components == old(self)@.components,
            forall|j: ItemId| #[trigger] lookup(final(self)@.tasks, j) == if j == id {
                None
            } else {
                lookup(old(self)@.tasks, j)
            },
    {
        match position(&self.tasks, id) {
            None => {
                proof {
                    assert forall|j: ItemId| #[trigger] lookup(self@.tasks, j) == if j == id {
                        None
                    } else {
                        lookup(self@.tasks, j)
                    } by {}
                }
                false
            },
            Some(k) => {
                proof {
                    lemma_lookup_remove(views(self.tasks@), k as int);
                }
                let ghost before = self.tasks@;
                self.tasks.remove(k);
                assert(views(self.tasks@) =~= views(before).remove(k as int));
                true
            },
        }
    }

    /// A calendar with the same name, URL and components, and no task.
    pub fn empty_copy(&self) -> (r: Calendar)
        ensures
            r.wf(),
            r@ == (CalendarView { tasks: Seq::empty(), ..self@ }),
    {
        Calendar::new(self.name.clone(), self.url.clone(), self.supported_components)
    }

    /// Puts a reconciled set of tasks in place of the current ones.
    pub(crate) fn set_tasks(&mut self, tasks: Vec<Task>)
        requires
            unique_ids(views(tasks@)),
        ensures
            final(self).wf(),
            final(self)@ == (CalendarView { tasks: views(tasks@), ..old(self)@ }),
    {
        self.tasks = tasks;
    }

    pub(crate) fn task_vec(&self) -> (r: &Vec<Task>)
        ensures
            views(r@) == self@.tasks,
    {
        &self.tasks
    }
}

} // verus!
