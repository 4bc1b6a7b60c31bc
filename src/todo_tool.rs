//! Arguments of the todo-list tool. `plan` is a legacy alias of `todo` that is
//! still accepted and still emitted.
use vstd::prelude::*;

verus! {

#[derive(Clone, Copy, Debug, PartialEq, Eq, Structural)]
pub enum TodoStatus {
    Pending,
    InProgress,
    Completed,
}

#[derive(Clone, Debug, PartialEq, Eq)]
pub struct TodoItemArg {
    pub step: String,
    pub status: TodoStatus,
}

impl View for TodoItemArg {
    type V = (Seq<char>, TodoStatus);

    open spec fn view(&self) -> (Seq<char>, TodoStatus) {
        (self.step@, self.status)
    }
}

pub open spec fn items_view(items: Seq<TodoItemArg>) -> Seq<(Seq<char>, TodoStatus)> {
    items.map_values(|i: TodoItemArg| i@)
}

/// A copy of `items` with the same views.
pub fn duplicate_items(items: &Vec<TodoItemArg>) -> (r: Vec<TodoItemArg>)
    ensures
        items_view(r@) == items_view(items@),
{
    let mut r: Vec<TodoItemArg> = Vec::new();
    let mut i: usize = 0;
    while i < items.len()
        invariant
            i <= items@.len(),
            r@.len() == i,
            forall|j: int| 0 <= j < i ==> r@[j]@ == items@[j]@,
        decreases items@.len() - i,
    {
        r.push(TodoItemArg { step: items[i].step.clone(), status: items[i].status });
        i = i + 1;
    }
    assert(items_view(r@) =~= items_view(items@));
    r
}

/// Arguments for the todo-list tool.
#[derive(Clone, Debug, PartialEq, Eq, Default)]
pub struct UpdateTodoArgs {
    pub explanation: Option<String>,
    pub todo: Vec<TodoItemArg>,
    pub plan: Vec<TodoItemArg>,
}

/// The items that a pair of lists stands for: `todo`, unless it is empty.
pub open spec fn effective_items(todo: Seq<TodoItemArg>, plan: Seq<TodoItemArg>) -> Seq<TodoItemArg> {
    if todo.len() == 0 {
        plan
    } else {
        todo
    }
}

/// Why a set of decoded fields does not make todo-list arguments.
#[derive(Clone, Copy, Debug, PartialEq, Eq, Structural)]
pub enum TodoArgsError {
    /// Neither `todo` nor `plan` was given.
    MissingTodo,
}

impl UpdateTodoArgs {
    pub fn new(explanation: Option<String>, todo: Vec<TodoItemArg>) -> (r: Self)
        ensures
            r.explanation == explanation,
            r.todo == todo,
            items_view(r.plan@) == items_view(todo@),
    {
        let plan = duplicate_items(&todo);
        UpdateTodoArgs { explanation, todo, plan }
    }

    pub fn todo_items(&self) -> (r: &[TodoItemArg])
        ensures
            r@ == effective_items(self.todo@, self.plan@),
    {
        if self.todo.len() == 0 {
            self.plan.as_slice()
        } else {
            self.todo.as_slice()
        }
    }

    pub fn into_todo_items(self) -> (r: Vec<TodoItemArg>)
        ensures
            r@ == effective_items(self.todo@, self.plan@),
    {
        if self.todo.len() == 0 {
            self.plan
        } else {
            self.todo
        }
    }

    pub fn into_parts(self) -> (r: (Option<String>, Vec<TodoItemArg>))
        ensures
            r.0 == self.explanation,
            r.1@ == effective_items(self.todo@, self.plan@),
    {
        let UpdateTodoArgs { explanation, todo, plan } = self;
        let items = if todo.len() == 0 {
            plan
        } else {
            todo
        };
        (explanation, items)
    }

    /// Builds the arguments from decoded fields: `todo` wins unless it is
    /// empty, `plan` stands in for a missing `todo`, and one of them must be
    /// present.
    pub fn from_fields(
        explanation: Option<String>,
        todo: Option<Vec<TodoItemArg>>,
        plan: Option<Vec<TodoItemArg>>,
    ) -> (r: Result<Self, TodoArgsError>)
        ensures
            (todo is None && plan is None) <==> r == Err::<Self, TodoArgsError>(
                TodoArgsError::MissingTodo,
            ),
            r matches Ok(args) ==> {
                let items = match (todo, plan) {
                    (Some(t), Some(p)) => effective_items(t@, p@),
                    (Some(t), None) => t@,
                    (None, Some(p)) => p@,
                    (None, None) => Seq::empty(),
                };
                &&& args.explanation == explanation
                &&& args.todo@ == items
                &&& items_view(args.plan@) == items_view(items)
            },
    {
        let items = match (todo, plan) {
            (Some(todo), Some(plan)) => {
                if todo.len() == 0 {
                    plan
                } else {
                    todo
                }
            },
            (Some(todo), None) => todo,
            (None, Some(plan)) => plan,
            (None, None) => return Err(TodoArgsError::MissingTodo),
        };
        Ok(UpdateTodoArgs::new(explanation, items))
    }
}

} // verus!
