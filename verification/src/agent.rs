//! The agent: the model calls tools, under the user's permissions and in the
//! user's sight.
//!
//! The model gets the task and the list of tools. As long as it asks for tool
//! calls they are carried out and their results go back to it as messages; its
//! first reply without a call is the final answer. Only tools that the user has
//! allowed are offered or carried out, and every step is reported as an event.

use vstd::prelude::*;
use vstd::string::*;

use crate::json::{
    distinct_keys, docs, lemma_distinct_fields, member, named_docs, object_of, text_member, Doc,
    Json,
};
use crate::text::{same_text, texts};
use crate::tools::{plan_for, Plan};

verus! {

/// The views of a list of pairs.
pub open spec fn pairs(list: Seq<(&str, &str)>) -> Seq<(Seq<char>, Seq<char>)> {
    Seq::new(list.len(), |i: int| (list[i].0@, list[i].1@))
}

/// The tools, each with what it is for.
pub open spec fn catalogued() -> Seq<(Seq<char>, Seq<char>)> {
    seq![
        ("read_file"@, "Прочитать текстовый файл"@),
        ("list_dir"@, "Показать содержимое папки"@),
        ("write_file"@, "Записать (создать/перезаписать) файл"@),
        ("run_command"@, "Выполнить команду в системе"@),
    ]
}

/// The tools, each with what it is for.
pub fn catalog() -> (res: Vec<(&'static str, &'static str)>)
    ensures
        pairs(res@) == catalogued(),
{
    vec![
        ("read_file", "Прочитать текстовый файл"),
        ("list_dir", "Показать содержимое папки"),
        ("write_file", "Записать (создать/перезаписать) файл"),
        ("run_command", "Выполнить команду в системе"),
    ]
}

/// A text parameter.
pub open spec fn property(description: Seq<char>) -> Doc {
    object_of(
        seq![("type"@, Doc::Text("string"@)), ("description"@, Doc::Text(description))],
    )
}

/// The parameters of a tool, all of them texts and all of them required.
pub open spec fn parameters(params: Seq<(Seq<char>, Seq<char>)>) -> Doc {
    object_of(
        seq![
            ("type"@, Doc::Text("object"@)),
            (
                "properties"@,
                object_of(Seq::new(params.len(), |i: int| (params[i].0, property(params[i].1)))),
            ),
            ("required"@, Doc::Array(Seq::new(params.len(), |i: int| Doc::Text(params[i].0)))),
        ],
    )
}

/// The description of a tool for the model.
pub open spec fn function(
    name: Seq<char>,
    description: Seq<char>,
    params: Seq<(Seq<char>, Seq<char>)>,
) -> Doc {
    object_of(
        seq![
            ("type"@, Doc::Text("function"@)),
            (
                "function"@,
                object_of(
                    seq![
                        ("name"@, Doc::Text(name)),
                        ("description"@, Doc::Text(description)),
                        ("parameters"@, parameters(params)),
                    ],
                ),
            ),
        ],
    )
}

/// The description of the tool `name`; `None` where there is no such tool.
pub open spec fn schema(name: Seq<char>) -> Option<Doc> {
    if name == "read_file"@ {
        Some(
            function(
                name,
                "Прочитать содержимое текстового файла (путь относительно рабочей папки)."@,
                seq![("path"@, "Путь к файлу"@)],
            ),
        )
    } else if name == "list_dir"@ {
        Some(
            function(
                name,
                "Показать список файлов и папок в каталоге."@,
                seq![("path"@, "Путь к каталогу (по умолчанию текущий)"@)],
            ),
        )
    } else if name == "write_file"@ {
        Some(
            function(
                name,
                "Создать или перезаписать текстовый файл указанным содержимым."@,
                seq![("path"@, "Путь к файлу"@), ("content"@, "Что записать"@)],
            ),
        )
    } else if name == "run_command"@ {
        Some(
            function(
                name,
                "Выполнить команду оболочки и вернуть вывод (stdout/stderr/код выхода)."@,
                seq![("command"@, "Команда"@)],
            ),
        )
    } else {
        None
    }
}

/// Builds the description of a tool.
fn describe(name: &str, description: &str, params: Vec<(&str, &str)>) -> (res: Json)
    ensures
        res@ == function(name@, description@, pairs(params@)),
{
    let ghost all = pairs(params@);
    let mut properties: Vec<(&str, Json)> = Vec::new();
    let mut required: Vec<Json> = Vec::new();
    let mut i: usize = 0;
    while i < params.len()
        invariant
            all == pairs(params@),
            i <= params@.len(),
            named_docs(properties@) =~= Seq::new(
                i as nat,
                |j: int| (all[j].0, property(all[j].1)),
            ),
            docs(required@) =~= Seq::new(i as nat, |j: int| Doc::Text(all[j].0)),
        decreases params@.len() - i,
    {
        let ghost done_properties = properties@;
        let ghost done_required = required@;
        let fields: Vec<(&str, Json)> = vec![
            ("type", Json::text("string")),
            ("description", Json::text(params[i].1)),
        ];
        proof {
            assert(named_docs(fields@) =~= seq![
                ("type"@, Doc::Text("string"@)),
                ("description"@, Doc::Text(params@[i as int].1@)),
            ]);
        }
        let property = Json::object(fields);
        let name = Json::text(params[i].0);
        properties.push((params[i].0, property));
        required.push(name);
        proof {
            assert(named_docs(properties@) =~= named_docs(done_properties).push(
                (all[i as int].0, property@),
            ));
            assert(docs(required@) =~= docs(done_required).push(name@));
        }
        i += 1;
    }
    let fields: Vec<(&str, Json)> = vec![
        ("type", Json::text("object")),
        ("properties", Json::object(properties)),
        ("required", Json::Array(required)),
    ];
    proof {
        let wanted = Seq::new(all.len(), |j: int| (all[j].0, property(all[j].1)));
        assert(named_docs(properties@) =~= wanted);
        let names = Seq::new(all.len(), |j: int| Doc::Text(all[j].0));
        assert(docs(required@) =~= names);
        assert(named_docs(fields@) =~= seq![
            ("type"@, Doc::Text("object"@)),
            ("properties"@, object_of(wanted)),
            ("required"@, Doc::Array(names)),
        ]);
    }
    let parameters = Json::object(fields);
    let fields: Vec<(&str, Json)> = vec![
        ("name", Json::text(name)),
        ("description", Json::text(description)),
        ("parameters", parameters),
    ];
    proof {
        assert(named_docs(fields@) =~= seq![
            ("name"@, Doc::Text(name@)),
            ("description"@, Doc::Text(description@)),
            ("parameters"@, parameters@),
        ]);
    }
    let function = Json::object(fields);
    let fields: Vec<(&str, Json)> = vec![("type", Json::text("function")), ("function", function)];
    proof {
        assert(named_docs(fields@) =~= seq![
            ("type"@, Doc::Text("function"@)),
            ("function"@, function@),
        ]);
    }
    Json::object(fields)
}

/// The view of an optional tree.
pub open spec fn schema_doc(tree: Option<Json>) -> Option<Doc> {
    match tree {
        Some(t) => Some(t@),
        None => None,
    }
}

/// The description of the tool `name` for the model.
pub fn tool_schema(name: &str) -> (res: Option<Json>)
    ensures
        schema_doc(res) == schema(name@),
{
    if same_text(name, "read_file") {
        let params: Vec<(&str, &str)> = vec![("path", "Путь к файлу")];
        proof {
            assert(pairs(params@) =~= seq![("path"@, "Путь к файлу"@)]);
        }
        Some(
            describe(
                name,
                "Прочитать содержимое текстового файла (путь относительно рабочей папки).",
                params,
            ),
        )
    } else if same_text(name, "list_dir") {
        let params: Vec<(&str, &str)> = vec![("path", "Путь к каталогу (по умолчанию текущий)")];
        proof {
            assert(pairs(params@) =~= seq![("path"@, "Путь к каталогу (по умолчанию текущий)"@)]);
        }
        Some(describe(name, "Показать список файлов и папок в каталоге.", params))
    } else if same_text(name, "write_file") {
        let params: Vec<(&str, &str)> = vec![("path", "Путь к файлу"), ("content", "Что записать")];
        proof {
            assert(pairs(params@) =~= seq![
                ("path"@, "Путь к файлу"@),
                ("content"@, "Что записать"@),
            ]);
        }
        Some(
            describe(name, "Создать или перезаписать текстовый файл указанным содержимым.", params),
        )
    } else if same_text(name, "run_command") {
        let params: Vec<(&str, &str)> = vec![("command", "Команда")];
        proof {
            assert(pairs(params@) =~= seq![("command"@, "Команда"@)]);
        }
        Some(
            describe(
                name,
                "Выполнить команду оболочки и вернуть вывод (stdout/stderr/код выхода).",
                params,
            ),
        )
    } else {
        None
    }
}

/// The descriptions of those of the allowed tools that exist, in their order.
pub open spec fn offered(allowed: Seq<Seq<char>>) -> Seq<Doc>
    decreases allowed.len(),
{
    if allowed.len() == 0 {
        Seq::empty()
    } else {
        match schema(allowed.last()) {
            Some(doc) => offered(allowed.drop_last()).push(doc),
            None => offered(allowed.drop_last()),
        }
    }
}

/// The list of tools for the model: the allowed ones, and no others.
pub fn allowed_tools_json(allowed: &Vec<String>) -> (res: Json)
    ensures
        res@ == Doc::Array(offered(texts(allowed@))),
{
    let mut out: Vec<Json> = Vec::new();
    let mut i: usize = 0;
    while i < allowed.len()
        invariant
            i <= allowed@.len(),
            docs(out@) =~= offered(texts(allowed@).take(i as int)),
        decreases allowed@.len() - i,
    {
        let ghost done = out@;
        proof {
            assert(texts(allowed@).take(i + 1).drop_last() =~= texts(allowed@).take(i as int));
        }
        if let Some(tree) = tool_schema(allowed[i].as_str()) {
            out.push(tree);
            proof {
                assert(docs(out@) =~= docs(done).push(tree@));
            }
        }
        i += 1;
    }
    proof {
        assert(texts(allowed@).take(i as int) =~= texts(allowed@));
        assert(docs(out@) =~= offered(texts(allowed@)));
    }
    Json::Array(out)
}

/// The catalog, the descriptions for the model and the plans for calls speak of
/// the same tools: a tool is in the catalog just when it has a description, and
/// a call of any other is answered that there is no such tool.
pub proof fn lemma_one_set_of_tools(name: Seq<char>, args: Doc)
    ensures
        schema(name) is Some <==> exists|i: int|
            0 <= i < catalogued().len() && (#[trigger] catalogued()[i]).0 == name,
        schema(name) is None <==> plan_for(name, args) == (Plan::Reply {
            ok: false,
            text: "неизвестный инструмент: "@ + name,
        }),
{
    let list = catalogued();
    assert(list[0].0 == "read_file"@);
    assert(list[1].0 == "list_dir"@);
    assert(list[2].0 == "write_file"@);
    assert(list[3].0 == "run_command"@);
    reveal_strlit("не указан path");
    reveal_strlit("не указан command");
    reveal_strlit("неизвестный инструмент: ");
    let unknown = "неизвестный инструмент: "@ + name;
    assert(unknown[2] == 'и');
    assert("не указан path"@[2] == ' ');
    assert("не указан command"@[2] == ' ');
}

/// The model is offered exactly the allowed tools that exist: whatever it is
/// offered describes one of them, and each of them is described to it.
pub proof fn lemma_only_allowed_offered(allowed: Seq<Seq<char>>)
    ensures
        forall|k: int|
            0 <= k < offered(allowed).len() ==> exists|i: int|
                0 <= i < allowed.len() && schema(#[trigger] allowed[i]) == Some(
                    #[trigger] offered(allowed)[k],
                ),
        forall|i: int|
            0 <= i < allowed.len() && schema(#[trigger] allowed[i]) is Some ==> offered(
                allowed,
            ).contains(schema(allowed[i])->0),
    decreases allowed.len(),
{
    if allowed.len() > 0 {
        let front = allowed.drop_last();
        lemma_only_allowed_offered(front);
        assert forall|k: int| 0 <= k < offered(allowed).len() implies exists|i: int|
            0 <= i < allowed.len() && schema(#[trigger] allowed[i]) == Some(
                #[trigger] offered(allowed)[k],
            ) by {
            if k < offered(front).len() {
                let i = choose|i: int|
                    0 <= i < front.len() && schema(#[trigger] front[i]) == Some(
                        offered(front)[k],
                    );
                assert(front[i] == allowed[i]);
            } else {
                assert(allowed[allowed.len() - 1] == allowed.last());
            }
        }
        assert forall|i: int|
            0 <= i < allowed.len() && schema(#[trigger] allowed[i]) is Some implies offered(
            allowed,
        ).contains(schema(allowed[i])->0) by {
            let doc = schema(allowed[i])->0;
            if i < front.len() {
                assert(front[i] == allowed[i]);
                let k = choose|k: int|
                    0 <= k < offered(front).len() && offered(front)[k] == doc;
                assert(offered(allowed)[k] == doc);
            } else {
                assert(offered(allowed)[offered(allowed).len() - 1] == doc);
            }
        }
    }
}

/// What happens in a run of the agent, mathematically.
pub ghost enum Event {
    Status(Seq<char>),
    Assistant(Seq<char>),
    ToolCall { name: Seq<char>, args: Seq<char> },
    ToolResult { name: Seq<char>, ok: bool, result: Seq<char> },
    Denied { name: Seq<char> },
    Final(Seq<char>),
    Error(Seq<char>),
}

/// What happens in a run of the agent: what the user sees of it.
#[derive(Debug, PartialEq)]
pub enum AgentEvent {
    Status(String),
    Assistant(String),
    ToolCall { name: String, args: String },
    ToolResult { name: String, ok: bool, result: String },
    Denied { name: String },
    Final(String),
    Error(String),
}

impl View for AgentEvent {
    type V = Event;

    open spec fn view(&self) -> Event {
        match self {
            AgentEvent::Status(s) => Event::Status(s@),
            AgentEvent::Assistant(s) => Event::Assistant(s@),
            AgentEvent::ToolCall { name, args } => Event::ToolCall { name: name@, args: args@ },
            AgentEvent::ToolResult { name, ok, result } => Event::ToolResult {
                name: name@,
                ok: *ok,
                result: result@,
            },
            AgentEvent::Denied { name } => Event::Denied { name: name@ },
            AgentEvent::Final(s) => Event::Final(s@),
            AgentEvent::Error(s) => Event::Error(s@),
        }
    }
}

/// An object with the one field `text`.
pub open spec fn text_object(s: Seq<char>) -> Doc {
    object_of(seq![("text"@, Doc::Text(s))])
}

/// The name under which an event is sent to the browser, and its data.
pub open spec fn sse(event: Event) -> (Seq<char>, Doc) {
    match event {
        Event::Status(s) => ("status"@, text_object(s)),
        Event::Assistant(s) => ("assistant"@, text_object(s)),
        Event::ToolCall { name, args } => (
            "tool_call"@,
            object_of(seq![("name"@, Doc::Text(name)), ("args"@, Doc::Text(args))]),
        ),
        Event::ToolResult { name, ok, result } => (
            "tool_result"@,
            object_of(
                seq![
                    ("name"@, Doc::Text(name)),
                    ("ok"@, Doc::Bool(ok)),
                    ("result"@, Doc::Text(result)),
                ],
            ),
        ),
        Event::Denied { name } => ("denied"@, object_of(seq![("name"@, Doc::Text(name))])),
        Event::Final(s) => ("final"@, text_object(s)),
        Event::Error(s) => ("error"@, text_object(s)),
    }
}

/// Builds an object with the one field `key`, a text.
fn single(key: &str, s: &str) -> (res: Json)
    ensures
        res@ == object_of(seq![(key@, Doc::Text(s@))]),
{
    let fields: Vec<(&str, Json)> = vec![(key, Json::text(s))];
    proof {
        assert(named_docs(fields@) =~= seq![(key@, Doc::Text(s@))]);
    }
    Json::object(fields)
}

/// Builds an object with two fields, both texts.
fn double(key: &str, s: &str, other: &str, t: &str) -> (res: Json)
    ensures
        res@ == object_of(seq![(key@, Doc::Text(s@)), (other@, Doc::Text(t@))]),
{
    let fields: Vec<(&str, Json)> = vec![(key, Json::text(s)), (other, Json::text(t))];
    proof {
        assert(named_docs(fields@) =~= seq![(key@, Doc::Text(s@)), (other@, Doc::Text(t@))]);
    }
    Json::object(fields)
}

impl AgentEvent {
    /// The name under which the event is sent to the browser, and its data.
    pub fn to_sse(&self) -> (res: (&'static str, Json))
        ensures
            (res.0@, res.1@) == sse(self@),
    {
        match self {
            AgentEvent::Status(s) => ("status", single("text", s.as_str())),
            AgentEvent::Assistant(s) => ("assistant", single("text", s.as_str())),
            AgentEvent::ToolCall { name, args } => (
                "tool_call",
                double("name", name.as_str(), "args", args.as_str()),
            ),
            AgentEvent::ToolResult { name, ok, result } => {
                let fields: Vec<(&str, Json)> = vec![
                    ("name", Json::text(name.as_str())),
                    ("ok", Json::Bool(*ok)),
                    ("result", Json::text(result.as_str())),
                ];
                proof {
                    assert(named_docs(fields@) =~= seq![
                        ("name"@, Doc::Text(name@)),
                        ("ok"@, Doc::Bool(*ok)),
                        ("result"@, Doc::Text(result@)),
                    ]);
                }
                ("tool_result", Json::object(fields))
            },
            AgentEvent::Denied { name } => ("denied", single("name", name.as_str())),
            AgentEvent::Final(s) => ("final", single("text", s.as_str())),
            AgentEvent::Error(s) => ("error", single("text", s.as_str())),
        }
    }
}

/// The catalog has these tools, in this order, each with what it is for.
pub proof fn lemma_catalogued()
    ensures
        catalogued().len() == 4,
        catalogued()[0].0 == "read_file"@ && catalogued()[0].1 == "Прочитать текстовый файл"@,
        catalogued()[1].0 == "list_dir"@ && catalogued()[1].1 == "Показать содержимое папки"@,
        catalogued()[2].0 == "write_file"@ && catalogued()[2].1
            == "Записать (создать/перезаписать) файл"@,
        catalogued()[3].0 == "run_command"@ && catalogued()[3].1 == "Выполнить команду в системе"@,
{
}

proof fn lemma_property(description: Seq<char>)
    ensures
        text_member(property(description), "type"@) == Some("string"@),
        text_member(property(description), "description"@) == Some(description),
{
    reveal_strlit("type");
    reveal_strlit("description");
    let fields = seq![("type"@, Doc::Text("string"@)), ("description"@, Doc::Text(description))];
    assert(fields[0].0.len() == 4 && fields[1].0.len() == 11);
    lemma_distinct_fields(fields);
}

/// What the description of a tool says of its parameters: all of them are
/// required, in their order, and each is a text with its own description; there
/// are no others.
pub proof fn lemma_parameters(params: Seq<(Seq<char>, Seq<char>)>)
    requires
        forall|i: int, j: int|
            0 <= i < j < params.len() ==> (#[trigger] params[i]).0 != (#[trigger] params[j]).0,
    ensures
        text_member(parameters(params), "type"@) == Some("object"@),
        member(parameters(params), "required"@) is Some,
        member(parameters(params), "required"@)->0 is Array,
        member(parameters(params), "required"@)->0->Array_0.len() == params.len(),
        forall|i: int|
            0 <= i < params.len() ==> member(
                parameters(params),
                "required"@,
            )->0->Array_0[i] == Doc::Text((#[trigger] params[i]).0),
        member(parameters(params), "properties"@) is Some,
        forall|i: int|
            0 <= i < params.len() ==> {
                let given = member(
                    member(parameters(params), "properties"@)->0,
                    (#[trigger] params[i]).0,
                );
                &&& given is Some
                &&& text_member(given->0, "type"@) == Some("string"@)
                &&& text_member(given->0, "description"@) == Some(params[i].1)
            },
        forall|key: Seq<char>|
            (#[trigger] member(member(parameters(params), "properties"@)->0, key)) is Some
                ==> exists|i: int| 0 <= i < params.len() && (#[trigger] params[i]).0 == key,
{
    reveal_strlit("type");
    reveal_strlit("properties");
    reveal_strlit("required");
    let given = Seq::new(params.len(), |i: int| (params[i].0, property(params[i].1)));
    let names = Seq::new(params.len(), |i: int| Doc::Text(params[i].0));
    let fields = seq![
        ("type"@, Doc::Text("object"@)),
        ("properties"@, object_of(given)),
        ("required"@, Doc::Array(names)),
    ];
    assert(fields[0].0.len() == 4 && fields[1].0.len() == 10 && fields[2].0.len() == 8);
    lemma_distinct_fields(fields);
    assert(member(parameters(params), fields[1].0) == Some(fields[1].1));
    assert(member(parameters(params), fields[2].0) == Some(fields[2].1));
    assert(distinct_keys(given)) by {
        assert forall|i: int, j: int| 0 <= i < j < given.len() implies (#[trigger] given[i]).0
            != (#[trigger] given[j]).0 by {
            assert(params[i].0 != params[j].0);
        }
    }
    lemma_distinct_fields(given);
    assert forall|i: int| 0 <= i < params.len() implies {
        let found = member(object_of(given), (#[trigger] params[i]).0);
        &&& found is Some
        &&& text_member(found->0, "type"@) == Some("string"@)
        &&& text_member(found->0, "description"@) == Some(params[i].1)
    } by {
        assert(member(object_of(given), given[i].0) == Some(given[i].1));
        lemma_property(params[i].1);
    }
    assert forall|key: Seq<char>|
        (#[trigger] member(object_of(given), key)) is Some implies exists|i: int|
        0 <= i < params.len() && (#[trigger] params[i]).0 == key by {
        assert(object_of(given)->Object_0.dom().contains(key));
        let i = choose|i: int| 0 <= i < given.len() && (#[trigger] given[i]).0 == key;
        assert(params[i].0 == key);
    }
}

/// What the model is told of each tool: what it is for, and its parameters.
pub open spec fn tool_facts(name: Seq<char>) -> (Seq<char>, Seq<(Seq<char>, Seq<char>)>) {
    if name == "run_command"@ {
        (
            "Выполнить команду оболочки и вернуть вывод (stdout/stderr/код выхода)."@,
            seq![("command"@, "Команда"@)],
        )
    } else if name == "write_file"@ {
        (
            "Создать или перезаписать текстовый файл указанным содержимым."@,
            seq![("path"@, "Путь к файлу"@), ("content"@, "Что записать"@)],
        )
    } else if name == "list_dir"@ {
        (
            "Показать список файлов и папок в каталоге."@,
            seq![("path"@, "Путь к каталогу (по умолчанию текущий)"@)],
        )
    } else {
        (
            "Прочитать содержимое текстового файла (путь относительно рабочей папки)."@,
            seq![("path"@, "Путь к файлу"@)],
        )
    }
}

/// Just these four tools have a description for the model. It is that of a
/// function with the name of the tool, and says what the tool is for and what its
/// parameters are.
pub proof fn lemma_schema(name: Seq<char>)
    ensures
        schema(name) is Some <==> name == "read_file"@ || name == "list_dir"@ || name
            == "write_file"@ || name == "run_command"@,
        schema(name) is Some ==> {
            let tool = schema(name)->0;
            let inner = member(tool, "function"@);
            &&& text_member(tool, "type"@) == Some("function"@)
            &&& inner is Some
            &&& text_member(inner->0, "name"@) == Some(name)
            &&& text_member(inner->0, "description"@) == Some(tool_facts(name).0)
            &&& member(inner->0, "parameters"@) == Some(parameters(tool_facts(name).1))
        },
{
    reveal_strlit("read_file");
    reveal_strlit("list_dir");
    reveal_strlit("write_file");
    reveal_strlit("run_command");
    assert("read_file"@.len() == 9 && "list_dir"@.len() == 8);
    assert("write_file"@.len() == 10 && "run_command"@.len() == 11);
    let (description, params) = tool_facts(name);
    if schema(name) is Some {
        assert(schema(name)->0 == function(name, description, params));
        lemma_function(name, description, params);
    }
}

/// The description of a tool as a function: its name, what it is for, and its
/// parameters.
proof fn lemma_function(
    name: Seq<char>,
    description: Seq<char>,
    params: Seq<(Seq<char>, Seq<char>)>,
)
    ensures
        ({
            let tool = function(name, description, params);
            let inner = member(tool, "function"@);
            &&& text_member(tool, "type"@) == Some("function"@)
            &&& inner is Some
            &&& text_member(inner->0, "name"@) == Some(name)
            &&& text_member(inner->0, "description"@) == Some(description)
            &&& member(inner->0, "parameters"@) == Some(parameters(params))
        }),
{
    reveal_strlit("type");
    reveal_strlit("function");
    reveal_strlit("name");
    reveal_strlit("description");
    reveal_strlit("parameters");
    let inner = seq![
        ("name"@, Doc::Text(name)),
        ("description"@, Doc::Text(description)),
        ("parameters"@, parameters(params)),
    ];
    let outer = seq![("type"@, Doc::Text("function"@)), ("function"@, object_of(inner))];
    assert(inner[0].0.len() == 4 && inner[1].0.len() == 11 && inner[2].0.len() == 10);
    assert(outer[0].0.len() == 4 && outer[1].0.len() == 8);
    lemma_distinct_fields(inner);
    lemma_distinct_fields(outer);
    let tool = function(name, description, params);
    assert(member(tool, outer[0].0) == Some(outer[0].1));
    assert(member(tool, outer[1].0) == Some(outer[1].1));
    assert(member(object_of(inner), inner[0].0) == Some(inner[0].1));
    assert(member(object_of(inner), inner[1].0) == Some(inner[1].1));
    assert(member(object_of(inner), inner[2].0) == Some(inner[2].1));
}

/// The tools are offered in the order in which they are allowed: each that exists
/// with its description, and the others not at all.
pub proof fn lemma_offered_in_order(a: Seq<Seq<char>>, b: Seq<Seq<char>>, name: Seq<char>)
    ensures
        offered(a + b) == offered(a) + offered(b),
        schema(name) is Some ==> offered(seq![name]) == seq![schema(name)->0],
        schema(name) is None ==> offered(seq![name]) == Seq::<Doc>::empty(),
        offered(Seq::empty()) == Seq::<Doc>::empty(),
    decreases b.len(),
{
    reveal_with_fuel(offered, 2);
    assert(seq![name].drop_last() =~= Seq::empty());
    assert(Seq::<Doc>::empty().push(schema(name)->0) =~= seq![schema(name)->0]);
    if b.len() == 0 {
        assert(a + b =~= a);
        assert(offered(a) + offered(b) =~= offered(a));
    } else {
        lemma_offered_in_order(a, b.drop_last(), name);
        assert((a + b).drop_last() =~= a + b.drop_last());
        assert(offered(a + b) =~= offered(a) + offered(b));
    }
}

/// What the browser is sent of an event: each kind under its own name, with its
/// texts as they stand.
pub proof fn lemma_sse(name: Seq<char>, text: Seq<char>, ok: bool)
    ensures
        sse(Event::Status(text)).0 == "status"@,
        text_member(sse(Event::Status(text)).1, "text"@) == Some(text),
        sse(Event::Assistant(text)).0 == "assistant"@,
        text_member(sse(Event::Assistant(text)).1, "text"@) == Some(text),
        sse(Event::Final(text)).0 == "final"@,
        text_member(sse(Event::Final(text)).1, "text"@) == Some(text),
        sse(Event::Error(text)).0 == "error"@,
        text_member(sse(Event::Error(text)).1, "text"@) == Some(text),
        sse(Event::Denied { name }).0 == "denied"@,
        text_member(sse(Event::Denied { name }).1, "name"@) == Some(name),
        sse(Event::ToolCall { name, args: text }).0 == "tool_call"@,
        text_member(sse(Event::ToolCall { name, args: text }).1, "name"@) == Some(name),
        text_member(sse(Event::ToolCall { name, args: text }).1, "args"@) == Some(text),
        sse(Event::ToolResult { name, ok, result: text }).0 == "tool_result"@,
        text_member(sse(Event::ToolResult { name, ok, result: text }).1, "name"@) == Some(name),
        member(sse(Event::ToolResult { name, ok, result: text }).1, "ok"@) == Some(Doc::Bool(ok)),
        text_member(sse(Event::ToolResult { name, ok, result: text }).1, "result"@) == Some(text),
{
    reveal_strlit("name");
    reveal_strlit("args");
    reveal_strlit("ok");
    reveal_strlit("result");
    let one = seq![("text"@, Doc::Text(text))];
    let denied = seq![("name"@, Doc::Text(name))];
    let call = seq![("name"@, Doc::Text(name)), ("args"@, Doc::Text(text))];
    let result = seq![
        ("name"@, Doc::Text(name)),
        ("ok"@, Doc::Bool(ok)),
        ("result"@, Doc::Text(text)),
    ];
    assert("name"@[0] == 'n' && "args"@[0] == 'a');
    assert(result[0].0.len() == 4 && result[1].0.len() == 2 && result[2].0.len() == 6);
    lemma_distinct_fields(one);
    lemma_distinct_fields(denied);
    lemma_distinct_fields(call);
    lemma_distinct_fields(result);
    assert(member(object_of(one), one[0].0) == Some(one[0].1));
    assert(member(object_of(denied), denied[0].0) == Some(denied[0].1));
    assert(member(object_of(call), call[0].0) == Some(call[0].1));
    assert(member(object_of(call), call[1].0) == Some(call[1].1));
    assert(member(object_of(result), result[0].0) == Some(result[0].1));
    assert(member(object_of(result), result[1].0) == Some(result[1].1));
    assert(member(object_of(result), result[2].0) == Some(result[2].1));
}

/// The view of an event is of the same kind, and has the same texts as they stand.
pub proof fn lemma_event_view(name: String, text: String, ok: bool)
    ensures
        AgentEvent::Status(text)@ == Event::Status(text@),
        AgentEvent::Assistant(text)@ == Event::Assistant(text@),
        AgentEvent::Final(text)@ == Event::Final(text@),
        AgentEvent::Error(text)@ == Event::Error(text@),
        (AgentEvent::Denied { name })@ == (Event::Denied { name: name@ }),
        (AgentEvent::ToolCall { name, args: text })@ == (Event::ToolCall {
            name: name@,
            args: text@,
        }),
        (AgentEvent::ToolResult { name, ok, result: text })@ == (Event::ToolResult {
            name: name@,
            ok,
            result: text@,
        }),
{
}

/// The view of an optional tree is the document of the tree, and that of a list of
/// pairs has both texts of each, in their order.
pub proof fn lemma_agent_views(tree: Json, list: Seq<(&str, &str)>)
    ensures
        schema_doc(Some(tree)) == Some(tree@),
        schema_doc(None) is None,
        pairs(list).len() == list.len(),
        forall|i: int|
            0 <= i < list.len() ==> (#[trigger] pairs(list)[i]).0 == list[i].0@ && pairs(
                list,
            )[i].1 == list[i].1@,
{
}

} // verus!
