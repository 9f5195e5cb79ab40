//! Prompts that are rendered from templates.
use crate::agents::blueprinter::BLUEPRINTER_SYSTEM_PROMPT;
use crate::failure;
use crate::failure::Failure;
use crate::text::same;
use vstd::prelude::*;

verus! {

pub const BLUEPRINTER_SYSTEM_TEMPLATE: &'static str = "blueprinter/system.j2";

pub const BLUEPRINTER_USER_TEMPLATE: &'static str = "blueprinter/user.j2";

pub const BLUEPRINTER_USER_SOURCE: &'static str =
    "Analyze the legacy codebase dependency graph below and create a migration blueprint.\nLegacy directory: {{ legacy_dir_path }}\nDependency graph JSON:\n{{ dependency_graph }}\n";

/// The line feed after a block is left out.
pub const TRIM_BLOCKS: bool = true;

/// The blanks before a block are left out.
pub const LSTRIP_BLOCKS: bool = true;

/// The values that a template can name.
pub type Values = Seq<(Seq<char>, Seq<char>)>;

pub open spec fn values_model(values: Seq<(String, String)>) -> Values {
    values.map_values(|v: (String, String)| (v.0@, v.1@))
}

/// The text of the error with which `minijinja` refuses a template, if it does.
pub uninterp spec fn template_error(
    trim_blocks: bool,
    lstrip_blocks: bool,
    name: Seq<char>,
    source: Seq<char>,
) -> Option<Seq<char>>;

/// `minijinja::Environment::add_template`, in an environment with the two settings: whether the
/// template can be parsed. The outcome depends on the settings, the name and the source alone and
/// has a name; nothing more is claimed of it.
#[verifier::external_body]
fn register_template(trim_blocks: bool, lstrip_blocks: bool, name: &str, source: &str) -> (res:
    Option<String>)
    ensures
        res.deep_view() == template_error(trim_blocks, lstrip_blocks, name@, source@),
{
    let mut environment = minijinja::Environment::new();
    environment.set_trim_blocks(trim_blocks);
    environment.set_lstrip_blocks(lstrip_blocks);
    environment.add_template(name, source).err().map(|e| e.to_string())
}

/// What `minijinja` renders for a template and values, or the text of its error.
pub uninterp spec fn rendered_template(
    trim_blocks: bool,
    lstrip_blocks: bool,
    name: Seq<char>,
    source: Seq<char>,
    values: Values,
) -> Result<Seq<char>, Seq<char>>;

/// `minijinja::Template::render`, for a template that is alone in an environment with the two
/// settings. The outcome depends on the settings, the name, the source and the values alone and
/// has a name; nothing more is claimed of it.
#[verifier::external_body]
fn render_template(
    trim_blocks: bool,
    lstrip_blocks: bool,
    name: &str,
    source: &str,
    values: &[(String, String)],
) -> (res: Result<String, String>)
    ensures
        rendered_template(
            trim_blocks,
            lstrip_blocks,
            name@,
            source@,
            values_model(values@),
        ) == match res {
            Ok(text) => Ok::<Seq<char>, Seq<char>>(text@),
            Err(error) => Err::<Seq<char>, Seq<char>>(error@),
        },
{
    let mut environment = minijinja::Environment::new();
    environment.set_trim_blocks(trim_blocks);
    environment.set_lstrip_blocks(lstrip_blocks);
    let context = minijinja::Value::from_iter(values.iter().cloned());
    environment
        .add_template(name, source)
        .and_then(|_| environment.get_template(name)?.render(context))
        .map_err(|e| e.to_string())
}

/// The text of the error with which `minijinja` says that it does not know a template.
pub uninterp spec fn unknown_template(name: Seq<char>) -> Seq<char>;

/// `minijinja::Environment::get_template`, for a name that was not registered. The text of its
/// error depends on the name alone and has a name; nothing more is claimed of it.
#[verifier::external_body]
fn missing_template(name: &str) -> (res: String)
    ensures
        res@ == unknown_template(name@),
{
    let found = minijinja::Environment::new().get_template(name).err().map(|e| e.to_string());
    found.unwrap_or_default()
}

/// The source of a template.
pub open spec fn template_source(name: Seq<char>) -> Option<Seq<char>> {
    if name == BLUEPRINTER_SYSTEM_TEMPLATE@ {
        Some(BLUEPRINTER_SYSTEM_PROMPT@)
    } else if name == BLUEPRINTER_USER_TEMPLATE@ {
        Some(BLUEPRINTER_USER_SOURCE@)
    } else {
        None
    }
}

/// Why the templates cannot be used: the first of them that cannot be parsed.
pub open spec fn registration_problem() -> Option<Seq<Seq<char>>> {
    match (
        template_error(
            TRIM_BLOCKS,
            LSTRIP_BLOCKS,
            BLUEPRINTER_SYSTEM_TEMPLATE@,
            BLUEPRINTER_SYSTEM_PROMPT@,
        ),
        template_error(
            TRIM_BLOCKS,
            LSTRIP_BLOCKS,
            BLUEPRINTER_USER_TEMPLATE@,
            BLUEPRINTER_USER_SOURCE@,
        ),
    ) {
        (Some(cause), _) => Some(
            failure::in_context(
                "failed to register blueprinter system prompt template"@,
                failure::plain(cause),
            ),
        ),
        (None, Some(cause)) => Some(
            failure::in_context(
                "failed to register blueprinter user prompt template"@,
                failure::plain(cause),
            ),
        ),
        (None, None) => None,
    }
}

/// The outcome of rendering, once it is known what the renderer made of the template.
pub open spec fn settled(
    name: Seq<char>,
    outcome: Result<Seq<char>, Seq<char>>,
) -> Result<Seq<char>, Seq<Seq<char>>> {
    match outcome {
        Ok(text) => Ok(text),
        Err(cause) => Err(
            failure::in_context(
                "failed to render prompt template `"@ + name + "`"@,
                failure::plain(cause),
            ),
        ),
    }
}

fn prompt_environment() -> (res: Result<(), Failure>)
    ensures
        registration_problem() == match res {
            Ok(_) => None,
            Err(error) => Some(error@),
        },
{
    if let Some(cause) = register_template(
        TRIM_BLOCKS,
        LSTRIP_BLOCKS,
        BLUEPRINTER_SYSTEM_TEMPLATE,
        BLUEPRINTER_SYSTEM_PROMPT,
    ) {
        return Err(
            Failure::new(cause).context(
                "failed to register blueprinter system prompt template".to_owned(),
            ),
        );
    }
    if let Some(cause) = register_template(
        TRIM_BLOCKS,
        LSTRIP_BLOCKS,
        BLUEPRINTER_USER_TEMPLATE,
        BLUEPRINTER_USER_SOURCE,
    ) {
        return Err(
            Failure::new(cause).context(
                "failed to register blueprinter user prompt template".to_owned(),
            ),
        );
    }
    Ok(())
}

/// Settles what the renderer made of a template.
pub fn settle_rendering(template_name: &str, outcome: Result<String, String>) -> (res: Result<
    String,
    Failure,
>)
    ensures
        settled(
            template_name@,
            match outcome {
                Ok(text) => Ok::<Seq<char>, Seq<char>>(text@),
                Err(error) => Err::<Seq<char>, Seq<char>>(error@),
            },
        ) == match res {
            Ok(text) => Ok::<Seq<char>, Seq<Seq<char>>>(text@),
            Err(error) => Err::<Seq<char>, Seq<Seq<char>>>(error@),
        },
{
    match outcome {
        Ok(text) => Ok(text),
        Err(cause) => {
            let mut message = "failed to render prompt template `".to_owned();
            message.append(template_name);
            message.append("`");
            Err(Failure::new(cause).context(message))
        },
    }
}

/// Renders a template with the values.
pub fn render(template_name: &str, values: &[(String, String)]) -> (res: Result<String, Failure>)
    ensures
        match registration_problem() {
            Some(chain) => res matches Err(error) && error@ == chain,
            None => match template_source(template_name@) {
                None => res matches Err(error) && error@ == failure::in_context(
                    "failed to load prompt template `"@ + template_name@ + "`"@,
                    failure::plain(unknown_template(template_name@)),
                ),
                Some(source) => settled(
                    template_name@,
                    rendered_template(
                        TRIM_BLOCKS,
                        LSTRIP_BLOCKS,
                        template_name@,
                        source,
                        values_model(values@),
                    ),
                ) == match res {
                    Ok(text) => Ok::<Seq<char>, Seq<Seq<char>>>(text@),
                    Err(error) => Err::<Seq<char>, Seq<Seq<char>>>(error@),
                },
            },
        },
{
    if let Err(error) = prompt_environment() {
        return Err(error);
    }
    let source: &'static str = if same(template_name, BLUEPRINTER_SYSTEM_TEMPLATE) {
        BLUEPRINTER_SYSTEM_PROMPT
    } else if same(template_name, BLUEPRINTER_USER_TEMPLATE) {
        BLUEPRINTER_USER_SOURCE
    } else {
        let mut message = "failed to load prompt template `".to_owned();
        message.append(template_name);
        message.append("`");
        return Err(Failure::new(missing_template(template_name)).context(message));
    };
    let outcome = render_template(TRIM_BLOCKS, LSTRIP_BLOCKS, template_name, source, values);
    settle_rendering(template_name, outcome)
}

} // verus!
