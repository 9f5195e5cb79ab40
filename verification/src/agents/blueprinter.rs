//! The agent that breaks a migration into tickets.
use crate::agents::ticket::{
    Agent, StatusModel, Ticket, TicketModel, TicketStatus, TicketTokenUsage,
};
use crate::agents::tools;
use crate::agents::tools::{list_schema, object_schema, typed_schema, ChatRequest};
use crate::config::calls::ToolSpec;
use crate::config::client;
use crate::config::client::{StructuredCall, ZeroClawClient};
use crate::config::routing::TaskKind;
use crate::config::schema;
use crate::failure;
use crate::failure::Failure;
use crate::json;
use crate::json::{push_entry, Json, JsonValue};
use crate::search;
use vstd::prelude::*;

verus! {

pub const BLUEPRINTER_NAME: &'static str = "blueprinter";

pub const DEFAULT_BLUEPRINTER_MODEL: &'static str = "google/gemini-3-flash-preview";

/// What a model is told about its task.
pub const BLUEPRINTER_SYSTEM_PROMPT: &'static str =
    "You are a Staff Software Engineer specializing in large-scale legacy migrations.\nAnalyze the provided legacy codebase dependency graph and generate an industrial-grade migration blueprint.\nYou must respond by calling the provided tool exactly once.\nRules:\n1. Preserve semantic equivalence and operational behavior.\n2. Break work into independently executable tickets.\n3. Use only relative file paths that actually exist in the supplied dependency graph.\n4. `legacy_code_snippet` must be a concise structural summary inferred from the graph, not raw source text.\n5. `target_framework` should be the best-fit modern destination for that ticket.\n6. `dependencies` should list concrete libraries, frameworks, or runtime dependencies.\n7. Do not emit markdown fences, plain text, or explanations.\n";

/// A ticket as a model describes it.
#[derive(Debug)]
pub struct BlueprintTicket {
    pub id: String,
    pub description: String,
    pub context_files: Vec<String>,
    pub legacy_code_snippet: String,
    pub target_framework: String,
    pub dependencies: Vec<String>,
}

/// What a model hands over.
#[derive(Debug)]
pub struct BlueprintPayload {
    pub tickets: Vec<BlueprintTicket>,
}

/// A new ticket, on which nothing was done yet.
pub open spec fn new_ticket(value: BlueprintTicket) -> TicketModel {
    TicketModel {
        id: value.id@,
        description: value.description@,
        context_files: value.context_files.deep_view(),
        status: StatusModel::Todo,
        legacy_code_snippet: value.legacy_code_snippet@,
        target_framework: value.target_framework@,
        dependencies: value.dependencies.deep_view(),
        modern_file_paths: Seq::empty(),
        test_file_paths: Seq::empty(),
        retries: 0,
        token_usage: TicketTokenUsage::none(),
        last_execution_diff: None,
        last_ast_diff: None,
    }
}

impl Ticket {
    pub fn from(value: BlueprintTicket) -> (res: Self)
        ensures
            res@ == new_ticket(value),
    {
        let res = Ticket {
            id: value.id,
            description: value.description,
            context_files: value.context_files,
            status: TicketStatus::Todo,
            legacy_code_snippet: value.legacy_code_snippet,
            target_framework: value.target_framework,
            dependencies: value.dependencies,
            modern_file_paths: Vec::new(),
            test_file_paths: Vec::new(),
            retries: 0,
            token_usage: TicketTokenUsage::default(),
            last_execution_diff: None,
            last_ast_diff: None,
        };
        assert(res.modern_file_paths.deep_view() =~= Seq::empty());
        assert(res.test_file_paths.deep_view() =~= Seq::empty());
        res
    }
}

impl BlueprintPayload {
    /// The tickets of the blueprint, in its order.
    pub fn into_tickets(self) -> (res: Vec<Ticket>)
        ensures
            res.deep_view() == self.tickets@.map_values(|t: BlueprintTicket| new_ticket(t)),
    {
        let ghost all = self.tickets@;
        let mut pending: Vec<BlueprintTicket> = self.tickets;
        let mut tickets: Vec<Ticket> = Vec::new();
        while pending.len() > 0
            invariant
                pending@.len() + tickets@.len() == all.len(),
                pending@ == all.skip(tickets@.len() as int),
                forall|i: int|
                    0 <= i < tickets@.len() ==> (#[trigger] tickets@[i])@ == new_ticket(all[i]),
            decreases pending@.len(),
        {
            let ticket = pending.remove(0);
            tickets.push(Ticket::from(ticket));
            assert(pending@ =~= all.skip(tickets@.len() as int));
        }
        assert(tickets.deep_view() =~= all.map_values(|t: BlueprintTicket| new_ticket(t)));
        tickets
    }
}

/// The agent for the first phase.
#[derive(Debug)]
pub struct BlueprinterAgent {
    provider: String,
    model: String,
}

impl Agent for BlueprinterAgent {
    open spec fn label(&self) -> Seq<char> {
        BLUEPRINTER_NAME@
    }

    closed spec fn model_name(&self) -> Seq<char> {
        self.model@
    }

    fn name(&self) -> (res: &str) {
        BLUEPRINTER_NAME
    }

    fn model(&self) -> (res: &str) {
        self.model.as_str()
    }
}

pub open spec fn user_prompt(legacy_dir_path: Seq<char>, dependency_graph: Seq<char>) -> Seq<char> {
    "Analyze the legacy codebase dependency graph below and create a migration blueprint.\nLegacy directory: "@
        + legacy_dir_path + "\nDependency graph JSON:\n"@ + dependency_graph + "\n"@
}

/// The schema of a blueprint.
pub open spec fn blueprint_schema() -> Json {
    tools::object_of(
        seq![
            (
                "tickets"@,
                tools::list_of(
                    tools::object_of(
                        seq![
                            ("context_files"@, tools::list_of(tools::typed("string"@))),
                            ("dependencies"@, tools::list_of(tools::typed("string"@))),
                            ("description"@, tools::typed("string"@)),
                            ("id"@, tools::typed("string"@)),
                            ("legacy_code_snippet"@, tools::typed("string"@)),
                            ("target_framework"@, tools::typed("string"@)),
                        ],
                        seq![
                            "id"@,
                            "description"@,
                            "context_files"@,
                            "legacy_code_snippet"@,
                            "target_framework"@,
                            "dependencies"@,
                        ],
                    ),
                ),
            ),
        ],
        seq!["tickets"@],
    )
}

impl BlueprinterAgent {
    pub closed spec fn provider_name(&self) -> Seq<char> {
        self.provider@
    }

    pub fn new(llm_client: &ZeroClawClient) -> (res: Self)
        ensures
            match client::config_for(llm_client.configs(), TaskKind::Blueprinter) {
                Some(config) => res.model_name() == config.model && res.provider_name()
                    == config.provider,
                None => res.model_name() == "unconfigured"@ && res.provider_name()
                    == "unconfigured"@,
            },
    {
        BlueprinterAgent {
            provider: llm_client.provider_for(TaskKind::Blueprinter).to_owned(),
            model: llm_client.model_for(TaskKind::Blueprinter).to_owned(),
        }
    }

    pub fn default_model() -> (res: &'static str)
        ensures
            res@ == DEFAULT_BLUEPRINTER_MODEL@,
    {
        DEFAULT_BLUEPRINTER_MODEL
    }

    pub fn provider(&self) -> (res: &str)
        ensures
            res@ == self.provider_name(),
    {
        self.provider.as_str()
    }

    /// Asks for a blueprint. `dependency_graph` is what came of parsing the sources.
    pub fn request_blueprint(
        legacy_dir_path: &str,
        dependency_graph: Result<String, Failure>,
    ) -> (res: Result<ChatRequest, Failure>)
        ensures
            match dependency_graph {
                Err(cause) => res matches Err(error) && error@ == failure::in_context(
                    "failed to build AST dependency graph from legacy directory "@
                        + legacy_dir_path@,
                    cause@,
                ),
                Ok(graph) => res matches Ok(request) && request.system_prompt@
                    == BLUEPRINTER_SYSTEM_PROMPT@ && request.user_prompt@ == user_prompt(
                    legacy_dir_path@,
                    graph@,
                ) && request.tool.name@ == "submit_blueprint"@ && request.tool.description@
                    == "Return the migration blueprint tickets"@ && request.tool.parameters@
                    == blueprint_schema(),
            },
    {
        match dependency_graph {
            Err(cause) => {
                let mut message =
                    "failed to build AST dependency graph from legacy directory ".to_owned();
                message.append(legacy_dir_path);
                Err(cause.context(message))
            },
            Ok(graph) => Ok(
                ChatRequest {
                    system_prompt: Self::system_prompt(),
                    user_prompt: Self::user_prompt(legacy_dir_path, graph.as_str()),
                    tool: Self::blueprint_tool(),
                },
            ),
        }
    }

    /// The tickets of the blueprint that the model answered with. `payload` is what came of
    /// reading the arguments of its call.
    pub fn generate_blueprint(
        answer: Result<StructuredCall, Failure>,
        payload: Result<BlueprintPayload, String>,
    ) -> (res: Result<Vec<Ticket>, Failure>)
        ensures
            match answer {
                Err(cause) => res matches Err(error) && error@ == failure::in_context(
                    "blueprint generation failed"@,
                    cause@,
                ),
                Ok(call) => match payload {
                    Ok(blueprint) => res matches Ok(tickets) && tickets.deep_view()
                        == blueprint.tickets@.map_values(|t: BlueprintTicket| new_ticket(t)),
                    Err(cause) => res matches Err(error) && error@ == call.unreadable(cause@),
                },
            },
    {
        match answer {
            Err(cause) => Err(cause.context("blueprint generation failed".to_owned())),
            Ok(call) => match call.deserialize_arguments(payload) {
                Ok(blueprint) => Ok(blueprint.into_tickets()),
                Err(error) => Err(error),
            },
        }
    }

    pub fn system_prompt() -> (res: String)
        ensures
            res@ == BLUEPRINTER_SYSTEM_PROMPT@,
    {
        BLUEPRINTER_SYSTEM_PROMPT.to_owned()
    }

    pub fn user_prompt(legacy_dir_path: &str, dependency_graph: &str) -> (res: String)
        ensures
            res@ == user_prompt(legacy_dir_path@, dependency_graph@),
    {
        let mut out =
            "Analyze the legacy codebase dependency graph below and create a migration blueprint.\nLegacy directory: ".to_owned();
        out.append(legacy_dir_path);
        out.append("\nDependency graph JSON:\n");
        out.append(dependency_graph);
        out.append("\n");
        out
    }

    pub fn blueprint_tool() -> (res: ToolSpec)
        ensures
            res.name@ == "submit_blueprint"@,
            res.description@ == "Return the migration blueprint tickets"@,
            res.parameters@ == blueprint_schema(),
    {
        let mut fields: Vec<(String, JsonValue)> = Vec::new();
        assert(json::entries_model(fields@) =~= Seq::empty());
        push_entry(&mut fields, "context_files", list_schema(typed_schema("string")));
        push_entry(&mut fields, "dependencies", list_schema(typed_schema("string")));
        push_entry(&mut fields, "description", typed_schema("string"));
        push_entry(&mut fields, "id", typed_schema("string"));
        push_entry(&mut fields, "legacy_code_snippet", typed_schema("string"));
        push_entry(&mut fields, "target_framework", typed_schema("string"));
        let ghost listed = seq![
            ("context_files"@, tools::list_of(tools::typed("string"@))),
            ("dependencies"@, tools::list_of(tools::typed("string"@))),
            ("description"@, tools::typed("string"@)),
            ("id"@, tools::typed("string"@)),
            ("legacy_code_snippet"@, tools::typed("string"@)),
            ("target_framework"@, tools::typed("string"@)),
        ];
        assert(json::entries_model(fields@) =~= listed);
        let required: Vec<&'static str> = vec![
            "id",
            "description",
            "context_files",
            "legacy_code_snippet",
            "target_framework",
            "dependencies",
        ];
        assert(tools::names(required@) =~= seq![
            "id"@,
            "description"@,
            "context_files"@,
            "legacy_code_snippet"@,
            "target_framework"@,
            "dependencies"@,
        ]);
        let ticket = object_schema(fields, &required);
        let ghost shape = ticket@;
        let mut entries: Vec<(String, JsonValue)> = Vec::new();
        assert(json::entries_model(entries@) =~= Seq::empty());
        push_entry(&mut entries, "tickets", list_schema(ticket));
        assert(json::entries_model(entries@) =~= seq![("tickets"@, tools::list_of(shape))]);
        let whole: Vec<&'static str> = vec!["tickets"];
        assert(tools::names(whole@) =~= seq!["tickets"@]);
        ToolSpec {
            name: "submit_blueprint".to_owned(),
            description: "Return the migration blueprint tickets".to_owned(),
            parameters: object_schema(entries, &whole),
        }
    }

    /// The agent does not work on single tickets.
    pub fn process_ticket(&self, _ticket: &Ticket) -> (res: Result<Ticket, Failure>)
        ensures
            res matches Err(error) && error@ == failure::plain(
                "BlueprinterAgent does not process individual tickets; call generate_blueprint instead"@,
            ),
    {
        Err(
            Failure::new(
                "BlueprinterAgent does not process individual tickets; call generate_blueprint instead".to_owned(),
            ),
        )
    }
}

// ---------------------------------------------------------------------------
// Laws
// ---------------------------------------------------------------------------
/// A ticket keeps what the blueprint says of it, word for word, and nothing was done on it yet.
pub proof fn lemma_new_ticket(value: BlueprintTicket)
    ensures
        ({
            let ticket = new_ticket(value);
            &&& ticket.id == value.id@
            &&& ticket.description == value.description@
            &&& ticket.legacy_code_snippet == value.legacy_code_snippet@
            &&& ticket.target_framework == value.target_framework@
            &&& ticket.context_files.len() == value.context_files@.len()
            &&& forall|i: int|
                0 <= i < value.context_files@.len() ==> #[trigger] ticket.context_files[i]
                    == value.context_files@[i]@
            &&& ticket.dependencies.len() == value.dependencies@.len()
            &&& forall|i: int|
                0 <= i < value.dependencies@.len() ==> #[trigger] ticket.dependencies[i]
                    == value.dependencies@[i]@
            &&& ticket.status is Todo
            &&& !ticket.has_artifacts()
            &&& ticket.retries == 0
            &&& ticket.token_usage.llm_calls == 0
            &&& ticket.token_usage.total_tokens == 0
            &&& ticket.last_execution_diff is None
            &&& ticket.last_ast_diff is None
        }),
{
}

/// The model is told of the directory and of the whole graph.
pub proof fn lemma_prompt_tells(legacy_dir_path: Seq<char>, dependency_graph: Seq<char>)
    ensures
        search::contains(
            user_prompt(legacy_dir_path, dependency_graph),
            legacy_dir_path + "\nDependency graph JSON:\n"@,
        ),
        search::contains(
            user_prompt(legacy_dir_path, dependency_graph),
            "\nDependency graph JSON:\n"@ + dependency_graph,
        ),
{
    search::lemma_parts_found();
}

/// The object has all that is known of a ticket.
pub open spec fn describes_ticket(value: Json) -> bool {
    &&& value is Record
    &&& json::has_key(value->Record_0, "id"@)
    &&& json::has_key(value->Record_0, "description"@)
    &&& json::has_key(value->Record_0, "context_files"@)
    &&& json::has_key(value->Record_0, "legacy_code_snippet"@)
    &&& json::has_key(value->Record_0, "target_framework"@)
    &&& json::has_key(value->Record_0, "dependencies"@)
    &&& json::entry(value->Record_0, "context_files"@)->0 is List
    &&& json::entry(value->Record_0, "dependencies"@)->0 is List
}

/// A blueprint that is accepted lists tickets, and describes each of them in full.
pub proof fn lemma_blueprint_demands(value: Json)
    requires
        schema::meets(value, blueprint_schema()),
    ensures
        value is Record,
        json::entry(value->Record_0, "tickets"@) is Some,
        json::entry(value->Record_0, "tickets"@)->0 is List,
        forall|i: int|
            0 <= i < json::entry(value->Record_0, "tickets"@)->0->List_0.len() ==> describes_ticket(
                #[trigger] json::entry(value->Record_0, "tickets"@)->0->List_0[i],
            ),
{
    let fields = seq![
        ("context_files"@, tools::list_of(tools::typed("string"@))),
        ("dependencies"@, tools::list_of(tools::typed("string"@))),
        ("description"@, tools::typed("string"@)),
        ("id"@, tools::typed("string"@)),
        ("legacy_code_snippet"@, tools::typed("string"@)),
        ("target_framework"@, tools::typed("string"@)),
    ];
    let required = seq![
        "id"@,
        "description"@,
        "context_files"@,
        "legacy_code_snippet"@,
        "target_framework"@,
        "dependencies"@,
    ];
    let ticket = tools::object_of(fields, required);
    let whole = seq![("tickets"@, tools::list_of(ticket))];
    assert(blueprint_schema() == tools::object_of(whole, seq!["tickets"@]));
    assert(seq!["tickets"@][0] == whole[0].0);
    tools::lemma_property(value, whole, seq!["tickets"@], 0);
    let tickets = json::entry(value->Record_0, "tickets"@)->0;
    tools::lemma_list_of(tickets, ticket);
    assert forall|i: int| 0 <= i < tickets->List_0.len() implies describes_ticket(
        #[trigger] tickets->List_0[i],
    ) by {
        let item = tickets->List_0[i];
        assert(schema::meets(item, ticket));
        tools::lemma_object_of(item, fields, required);
        assert(required[0] == "id"@ && required[1] == "description"@);
        assert(required[2] == "context_files"@ && required[3] == "legacy_code_snippet"@);
        assert(required[4] == "target_framework"@ && required[5] == "dependencies"@);
        assert(required.contains(required[0]) && required.contains(required[1]));
        assert(required.contains(required[2]) && required.contains(required[3]));
        assert(required.contains(required[4]) && required.contains(required[5]));
        tools::lemma_property(item, fields, required, 0);
        tools::lemma_property(item, fields, required, 1);
        tools::lemma_list_of(
            json::entry(item->Record_0, "context_files"@)->0,
            tools::typed("string"@),
        );
        tools::lemma_list_of(
            json::entry(item->Record_0, "dependencies"@)->0,
            tools::typed("string"@),
        );
    }
}

} // verus!
