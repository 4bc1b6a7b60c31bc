use serde_json::Value;
use turn_engine::todo_handler::FunctionCallError;
use turn_engine::todo_handler::TodoWriteHandler;
use turn_engine::todo_handler::ToolKind;
use turn_engine::todo_handler::ToolPayload;
use turn_engine::todo_tool::TodoArgsError;
use turn_engine::todo_tool::TodoItemArg;
use turn_engine::todo_tool::TodoStatus;
use turn_engine::todo_tool::UpdateTodoArgs;

fn status_from_json(v: &Value) -> TodoStatus {
    match v.as_str().expect("status is a string") {
        "pending" => TodoStatus::Pending,
        "in_progress" => TodoStatus::InProgress,
        "completed" => TodoStatus::Completed,
        other => panic!("unknown status {other}"),
    }
}

fn status_to_json(s: TodoStatus) -> Value {
    Value::String(
        match s {
            TodoStatus::Pending => "pending",
            TodoStatus::InProgress => "in_progress",
            TodoStatus::Completed => "completed",
        }
        .to_string(),
    )
}

fn items_from_json(v: Option<&Value>) -> Option<Vec<TodoItemArg>> {
    v.map(|list| {
        list.as_array()
            .expect("items are a list")
            .iter()
            .map(|item| TodoItemArg {
                step: item["step"].as_str().expect("step").to_string(),
                status: status_from_json(&item["status"]),
            })
            .collect()
    })
}

fn items_to_json(items: &[TodoItemArg]) -> Value {
    Value::Array(
        items
            .iter()
            .map(|item| {
                let mut m = serde_json::Map::new();
                m.insert("step".to_string(), Value::String(item.step.clone()));
                m.insert("status".to_string(), status_to_json(item.status));
                Value::Object(m)
            })
            .collect(),
    )
}

fn args_from_json(text: &str) -> Result<UpdateTodoArgs, TodoArgsError> {
    let value: Value = serde_json::from_str(text).expect("valid JSON");
    let explanation = value
        .get("explanation")
        .and_then(|e| e.as_str())
        .map(|e| e.to_string());
    UpdateTodoArgs::from_fields(
        explanation,
        items_from_json(value.get("todo")),
        items_from_json(value.get("plan")),
    )
}

fn args_to_json(args: &UpdateTodoArgs) -> Value {
    let items = args.todo_items();
    let mut m = serde_json::Map::new();
    if let Some(explanation) = &args.explanation {
        m.insert("explanation".to_string(), Value::String(explanation.clone()));
    }
    m.insert("todo".to_string(), items_to_json(items));
    m.insert("plan".to_string(), items_to_json(items));
    Value::Object(m)
}

fn item(step: &str, status: TodoStatus) -> TodoItemArg {
    TodoItemArg {
        step: step.to_string(),
        status,
    }
}

#[test]
fn deserializes_legacy_plan_field() {
    let args = args_from_json(r#"{"explanation":"x","plan":[{"step":"a","status":"pending"}]}"#)
        .expect("legacy plan field should parse");
    let expected = UpdateTodoArgs::new(
        Some("x".to_string()),
        vec![TodoItemArg {
            step: "a".to_string(),
            status: TodoStatus::Pending,
        }],
    );
    assert_eq!(args, expected);
}

#[test]
fn serializes_todo_and_plan_fields() {
    let args = UpdateTodoArgs::new(
        None,
        vec![TodoItemArg {
            step: "a".to_string(),
            status: TodoStatus::Completed,
        }],
    );
    let mut m = serde_json::Map::new();
    m.insert("todo".to_string(), items_to_json(&args.todo));
    m.insert("plan".to_string(), items_to_json(&args.plan));
    let value = Value::Object(m);
    assert_eq!(value.get("todo"), value.get("plan"));
    let written = args_to_json(&args);
    assert_eq!(written.get("todo"), value.get("todo"));
}

#[test]
fn todo_wins_over_plan_unless_empty() {
    let both = UpdateTodoArgs::from_fields(
        None,
        Some(vec![item("t", TodoStatus::Pending)]),
        Some(vec![item("p", TodoStatus::Completed)]),
    )
    .expect("fields present");
    assert_eq!(both.todo, vec![item("t", TodoStatus::Pending)]);
    assert_eq!(both.plan, both.todo);

    let empty_todo = UpdateTodoArgs::from_fields(
        None,
        Some(Vec::new()),
        Some(vec![item("p", TodoStatus::InProgress)]),
    )
    .expect("fields present");
    assert_eq!(empty_todo.todo, vec![item("p", TodoStatus::InProgress)]);
}

#[test]
fn missing_todo_and_plan_is_an_error() {
    assert_eq!(
        UpdateTodoArgs::from_fields(Some("x".to_string()), None, None),
        Err(TodoArgsError::MissingTodo)
    );
    assert_eq!(args_from_json(r#"{"explanation":"x"}"#), Err(TodoArgsError::MissingTodo));
}

#[test]
fn item_accessors_fall_back_to_plan() {
    let args = UpdateTodoArgs {
        explanation: Some("why".to_string()),
        todo: Vec::new(),
        plan: vec![item("legacy", TodoStatus::Pending)],
    };
    assert_eq!(args.todo_items(), &[item("legacy", TodoStatus::Pending)][..]);
    assert_eq!(args.clone().into_todo_items(), vec![item("legacy", TodoStatus::Pending)]);
    let (explanation, items) = args.into_parts();
    assert_eq!(explanation, Some("why".to_string()));
    assert_eq!(items, vec![item("legacy", TodoStatus::Pending)]);

    let args = UpdateTodoArgs::new(None, vec![item("new", TodoStatus::Completed)]);
    assert_eq!(args.plan, vec![item("new", TodoStatus::Completed)]);
    assert_eq!(args.todo_items(), &[item("new", TodoStatus::Completed)][..]);
}

#[test]
fn handler_accepts_function_payloads_only() {
    let handler = TodoWriteHandler;
    assert_eq!(handler.kind(), ToolKind::Function);
    assert_eq!(
        handler.payload_arguments(ToolPayload::Function {
            arguments: "{}".to_string()
        }),
        Ok("{}".to_string())
    );
    assert_eq!(
        handler.payload_arguments(ToolPayload::Custom {
            input: "x".to_string()
        }),
        Err(FunctionCallError::RespondToModel(
            "todo_write handler received unsupported payload".to_string()
        ))
    );
    assert_eq!(handler.completion_message(), "Todo list updated");
}
