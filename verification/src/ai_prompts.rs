//! Curated prompts for the inline AI actions. The caller parses the request
//! into an `AiAction`, gathers the project memory, then calls
//! `build_messages` to get the chat payload.
use vstd::prelude::*;
use vstd::string::*;

use crate::ai::{ChatMessage, Role};
use crate::error::{AppError, AppResult};
use crate::text::{chars_of, str_eq, string_of, trim, trim_str};

verus! {

/// The Rewrite sub-modes. `Custom` carries the user's instruction.
#[derive(Debug, Clone, PartialEq, Eq)]
pub enum RewriteMode {
    Rephrase,
    Shorter,
    Vivid,
    ShowNotTell,
    InnerConflict,
    Custom(String),
}

/// An inline AI action.
#[derive(Debug, Clone, PartialEq, Eq)]
pub enum AiAction {
    Continue,
    Expand,
    Describe,
    Rewrite(RewriteMode),
}

/// A rewrite mode with the custom instruction as characters.
pub enum ModeView {
    Rephrase,
    Shorter,
    Vivid,
    ShowNotTell,
    InnerConflict,
    Custom(Seq<char>),
}

/// An action with the custom instruction as characters.
pub enum ActionView {
    Continue,
    Expand,
    Describe,
    Rewrite(ModeView),
}

impl View for AiAction {
    type V = ActionView;

    open spec fn view(&self) -> ActionView {
        match self {
            AiAction::Continue => ActionView::Continue,
            AiAction::Expand => ActionView::Expand,
            AiAction::Describe => ActionView::Describe,
            AiAction::Rewrite(m) => ActionView::Rewrite(
                match m {
                    RewriteMode::Rephrase => ModeView::Rephrase,
                    RewriteMode::Shorter => ModeView::Shorter,
                    RewriteMode::Vivid => ModeView::Vivid,
                    RewriteMode::ShowNotTell => ModeView::ShowNotTell,
                    RewriteMode::InnerConflict => ModeView::InnerConflict,
                    RewriteMode::Custom(s) => ModeView::Custom(s@),
                },
            ),
        }
    }
}

/// The text an action operates on, plus the rendered memory block (may be
/// empty).
pub struct ActionInput<'a> {
    pub selected_text: &'a str,
    pub preceding_text: &'a str,
    pub memory_block: &'a str,
}

/// The characters of an optional text.
pub open spec fn opt_chars(o: Option<&str>) -> Option<Seq<char>> {
    match o {
        Some(s) => Some(s@),
        None => None,
    }
}

/// The action a request names, or the detail of the refusal.
pub open spec fn parse_spec(action: Seq<char>, sub_mode: Option<Seq<char>>, custom: Option<Seq<char>>) -> Result<
    ActionView,
    Seq<char>,
> {
    if action == "continue"@ {
        Ok(ActionView::Continue)
    } else if action == "expand"@ {
        Ok(ActionView::Expand)
    } else if action == "describe"@ {
        Ok(ActionView::Describe)
    } else if action == "rewrite"@ {
        let m = match sub_mode {
            Some(s) => s,
            None => "rephrase"@,
        };
        if m == "rephrase"@ {
            Ok(ActionView::Rewrite(ModeView::Rephrase))
        } else if m == "shorter"@ {
            Ok(ActionView::Rewrite(ModeView::Shorter))
        } else if m == "vivid"@ {
            Ok(ActionView::Rewrite(ModeView::Vivid))
        } else if m == "show_not_tell"@ {
            Ok(ActionView::Rewrite(ModeView::ShowNotTell))
        } else if m == "inner_conflict"@ {
            Ok(ActionView::Rewrite(ModeView::InnerConflict))
        } else if m == "custom"@ {
            match custom {
                Some(c) => if trim(c).len() > 0 {
                    Ok(ActionView::Rewrite(ModeView::Custom(trim(c))))
                } else {
                    Err("rewrite 'custom' requiere una instrucción"@)
                },
                None => Err("rewrite 'custom' requiere una instrucción"@),
            }
        } else {
            Err("sub-modo de rewrite desconocido: "@ + m)
        }
    } else {
        Err("acción de IA desconocida: "@ + action)
    }
}

/// An action result seen through its views: the action, or the detail of
/// an `Invariant` error.
pub open spec fn action_result(r: AppResult<AiAction>) -> Result<ActionView, Seq<char>> {
    match r {
        Ok(a) => Ok(a@),
        Err(AppError::Invariant(m)) => Err(m@),
        Err(_) => Err(Seq::empty()),
    }
}

/// An `Invariant` error with the given detail.
fn invalid(prefix: &str, detail: &str) -> (e: AppError)
    ensures
        e == AppError::Invariant(e->Invariant_0),
        e->Invariant_0@ == prefix@ + detail@,
{
    let mut m = String::from_str(prefix);
    m.append(detail);
    AppError::Invariant(m)
}

/// Parse the wire request into a typed action. `sub_mode` (default
/// `rephrase`) and `custom` only matter for `rewrite`.
pub fn parse_action(action: &str, sub_mode: Option<&str>, custom: Option<&str>) -> (r: AppResult<
    AiAction,
>)
    ensures
        r matches Err(e) ==> e is Invariant,
        action_result(r) == parse_spec(action@, opt_chars(sub_mode), opt_chars(custom)),
{
    if str_eq(action, "continue") {
        return Ok(AiAction::Continue);
    }
    if str_eq(action, "expand") {
        return Ok(AiAction::Expand);
    }
    if str_eq(action, "describe") {
        return Ok(AiAction::Describe);
    }
    if !str_eq(action, "rewrite") {
        return Err(invalid("acción de IA desconocida: ", action));
    }
    let m: &str = match sub_mode {
        Some(s) => s,
        None => "rephrase",
    };
    let mode = if str_eq(m, "rephrase") {
        RewriteMode::Rephrase
    } else if str_eq(m, "shorter") {
        RewriteMode::Shorter
    } else if str_eq(m, "vivid") {
        RewriteMode::Vivid
    } else if str_eq(m, "show_not_tell") {
        RewriteMode::ShowNotTell
    } else if str_eq(m, "inner_conflict") {
        RewriteMode::InnerConflict
    } else if str_eq(m, "custom") {
        let t = match custom {
            Some(c) => trim_str(c),
            None => {
                return Err(
                    AppError::Invariant(String::from_str("rewrite 'custom' requiere una instrucción")),
                );
            },
        };
        if t.len() == 0 {
            return Err(
                AppError::Invariant(String::from_str("rewrite 'custom' requiere una instrucción")),
            );
        }
        RewriteMode::Custom(string_of(&t))
    } else {
        return Err(invalid("sub-modo de rewrite desconocido: ", m));
    };
    Ok(AiAction::Rewrite(mode))
}

/// The persona shared by every action: return only the requested text and
/// keep the manuscript's language, voice, point of view and tense.
pub open spec fn base_system() -> Seq<char> {
    "Eres un asistente de escritura literaria integrado en un editor de texto. Devuelves ÚNICAMENTE el texto pedido: sin explicaciones, sin preámbulos y sin comillas que lo envuelvan. Conservás el idioma, la voz narrativa, el punto de vista y el tiempo verbal del texto del usuario."@
}

/// The task line of each action.
pub open spec fn instruction_text(a: ActionView) -> Seq<char> {
    match a {
        ActionView::Continue => "Tarea: continuá la narración de forma natural a partir del texto entregado. No repitas lo ya escrito; escribí lo que sigue."@,
        ActionView::Expand => "Tarea: expandí el fragmento entregado, ampliándolo aproximadamente entre un 30% y un 50%, agregando detalle y profundidad sin cambiar los hechos."@,
        ActionView::Describe => "Tarea: escribí una descripción sensorial y evocadora de lo indicado, apelando a vista, oído, olfato, tacto y atmósfera cuando sea pertinente."@,
        ActionView::Rewrite(m) => match m {
            ModeView::Rephrase => "Tarea: reescribí el fragmento con otras palabras, conservando el sentido y una longitud similar."@,
            ModeView::Shorter => "Tarea: reescribí el fragmento de forma más concisa, conservando lo esencial."@,
            ModeView::Vivid => "Tarea: reescribí el fragmento con lenguaje más vívido, concreto y sensorial."@,
            ModeView::ShowNotTell => "Tarea: reescribí mostrando mediante acciones, gestos y sensaciones en lugar de enunciar emociones o hechos ('show, don't tell')."@,
            ModeView::InnerConflict => "Tarea: reescribí profundizando el conflicto interno, las dudas y la introspección del personaje punto de vista."@,
            ModeView::Custom(p) => "Tarea: reescribí el fragmento siguiendo esta instrucción del usuario: "@ + p,
        },
    }
}

/// The task line appended to the persona for an action.
pub fn instruction(action: &AiAction) -> (r: String)
    ensures
        r@ == instruction_text(action@),
{
    match action {
        AiAction::Continue => String::from_str(
            "Tarea: continuá la narración de forma natural a partir del texto entregado. No repitas lo ya escrito; escribí lo que sigue.",
        ),
        AiAction::Expand => String::from_str(
            "Tarea: expandí el fragmento entregado, ampliándolo aproximadamente entre un 30% y un 50%, agregando detalle y profundidad sin cambiar los hechos.",
        ),
        AiAction::Describe => String::from_str(
            "Tarea: escribí una descripción sensorial y evocadora de lo indicado, apelando a vista, oído, olfato, tacto y atmósfera cuando sea pertinente.",
        ),
        AiAction::Rewrite(mode) => match mode {
            RewriteMode::Rephrase => String::from_str(
                "Tarea: reescribí el fragmento con otras palabras, conservando el sentido y una longitud similar.",
            ),
            RewriteMode::Shorter => String::from_str(
                "Tarea: reescribí el fragmento de forma más concisa, conservando lo esencial.",
            ),
            RewriteMode::Vivid => String::from_str(
                "Tarea: reescribí el fragmento con lenguaje más vívido, concreto y sensorial.",
            ),
            RewriteMode::ShowNotTell => String::from_str(
                "Tarea: reescribí mostrando mediante acciones, gestos y sensaciones en lugar de enunciar emociones o hechos ('show, don't tell').",
            ),
            RewriteMode::InnerConflict => String::from_str(
                "Tarea: reescribí profundizando el conflicto interno, las dudas y la introspección del personaje punto de vista.",
            ),
            RewriteMode::Custom(p) => {
                let mut s = String::from_str(
                    "Tarea: reescribí el fragmento siguiendo esta instrucción del usuario: ",
                );
                s.append(p.as_str());
                s
            },
        },
    }
}

/// The text the user message carries for an action: the text before the
/// cursor for `Continue`, the selection otherwise; trimmed.
pub open spec fn user_text(a: ActionView, selected: Seq<char>, preceding: Seq<char>) -> Seq<char> {
    match a {
        ActionView::Continue => trim(preceding),
        _ => trim(selected),
    }
}

/// The system message: persona, task and, when the memory block is not
/// blank, the project context.
pub open spec fn system_text(a: ActionView, memory: Seq<char>) -> Seq<char> {
    let head = base_system() + "\n\n"@ + instruction_text(a);
    if trim(memory).len() > 0 {
        head
            + "\n\nContexto del proyecto (úsalo para mantener coherencia, no lo cites literalmente):\n"@
            + trim(memory)
    } else {
        head
    }
}

/// What a blank input is missing, per action.
pub open spec fn missing_text(a: ActionView) -> Seq<char> {
    match a {
        ActionView::Continue => "esta acción necesita texto previo al cursor"@,
        _ => "esta acción necesita una selección de texto"@,
    }
}

/// Build the chat messages for an action. The text the action needs must
/// not be blank; the memory block, when not blank, rides in the system
/// message.
pub fn build_messages(action: &AiAction, input: &ActionInput) -> (r: AppResult<Vec<ChatMessage>>)
    ensures
        r is Err <==> user_text(action@, input.selected_text@, input.preceding_text@).len() == 0,
        r matches Err(e) ==> e == AppError::Invariant(e->Invariant_0) && e->Invariant_0@
            == missing_text(action@),
        r matches Ok(m) ==> m@.len() == 2 && m@[0].role == Role::System && m@[0].content@
            == system_text(action@, input.memory_block@) && m@[1].role == Role::User && m@[1].content@
            == user_text(action@, input.selected_text@, input.preceding_text@),
{
    let user = match action {
        AiAction::Continue => trim_str(input.preceding_text),
        _ => trim_str(input.selected_text),
    };
    if user.len() == 0 {
        let missing = match action {
            AiAction::Continue => "esta acción necesita texto previo al cursor",
            _ => "esta acción necesita una selección de texto",
        };
        return Err(AppError::Invariant(String::from_str(missing)));
    }
    let mut system = String::from_str(
        "Eres un asistente de escritura literaria integrado en un editor de texto. Devuelves ÚNICAMENTE el texto pedido: sin explicaciones, sin preámbulos y sin comillas que lo envuelvan. Conservás el idioma, la voz narrativa, el punto de vista y el tiempo verbal del texto del usuario.",
    );
    system.append("\n\n");
    let task = instruction(action);
    system.append(task.as_str());
    let memory = trim_str(input.memory_block);
    if memory.len() > 0 {
        system.append(
            "\n\nContexto del proyecto (úsalo para mantener coherencia, no lo cites literalmente):\n",
        );
        let ms = string_of(&memory);
        system.append(ms.as_str());
    }
    let us = string_of(&user);
    let mut out: Vec<ChatMessage> = Vec::new();
    out.push(ChatMessage::system(system.as_str()));
    out.push(ChatMessage::user(us.as_str()));
    Ok(out)
}

} // verus!
