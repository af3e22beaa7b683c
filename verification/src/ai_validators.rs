//! Analytical passes over a chapter that surface consistency and craft
//! issues. Three are model-backed (character, voice, plot): for them this
//! module builds the JSON-constrained prompt and turns the model's entries
//! into findings. Two are local heuristics (repetition, style) that need no
//! network. The codex coverage pre-check estimates how much of the text's
//! cast the codex describes.
use vstd::prelude::*;
use vstd::string::*;

use crate::ai::{ChatMessage, Role};
use crate::error::{AppError, AppResult};
use crate::segments::{
    decimal, fields, fields_exec, is_sep, nonempty, push_decimal, split_all, split_all_exec, strip,
    strip_exec, utf8_len, utf8_len_exec, views, Sep,
};
use crate::text::{
    alphabetic, chars_eq, chars_of, contains, contains_exec, ends_with, ends_with_exec, find_from,
    extend_chars, find_from_exec, join, join_strings, lemma_find_from_occurs, lowercase, slice_chars,
    string_of, string_views, to_lowercase, trim, trim_chars, trim_start, trim_str, uppercase,
    is_alphabetic, is_uppercase,
};

verus! {

/// How serious a finding is.
#[derive(Debug, Clone, Copy, PartialEq, Eq, Structural)]
pub enum Severity {
    Critical,
    Warning,
    Info,
}

/// The severity a model's label names (after trimming and lower-casing):
/// the critical spellings, `info`, and everything else a warning.
pub open spec fn severity_named(t: Seq<char>) -> Severity {
    if t == "critical"@ || t == "crítico"@ || t == "critico"@ {
        Severity::Critical
    } else if t == "info"@ {
        Severity::Info
    } else {
        Severity::Warning
    }
}

impl Severity {
    /// Read a severity label as a model writes it.
    pub fn parse(s: &str) -> (r: Severity)
        ensures
            r == severity_named(lowercase(trim(s@))),
    {
        let t = trim_str(s);
        let ts = string_of(&t);
        let lower = to_lowercase(ts.as_str());
        let l = chars_of(lower.as_str());
        let critical = chars_of("critical");
        let critico_accent = chars_of("crítico");
        let critico = chars_of("critico");
        let info = chars_of("info");
        if chars_eq(&l, &critical) || chars_eq(&l, &critico_accent) || chars_eq(&l, &critico) {
            Severity::Critical
        } else if chars_eq(&l, &info) {
            Severity::Info
        } else {
            Severity::Warning
        }
    }
}

/// The five validators.
#[derive(Debug, Clone, Copy, PartialEq, Eq, Structural)]
pub enum ValidatorKind {
    Character,
    Voice,
    Repetition,
    Plot,
    Style,
}

/// The identifier of a validator.
pub open spec fn kind_name(k: ValidatorKind) -> Seq<char> {
    match k {
        ValidatorKind::Character => "character"@,
        ValidatorKind::Voice => "voice"@,
        ValidatorKind::Repetition => "repetition"@,
        ValidatorKind::Plot => "plot"@,
        ValidatorKind::Style => "style"@,
    }
}

/// Whether a validator runs locally, without a model.
pub open spec fn kind_is_local(k: ValidatorKind) -> bool {
    k == ValidatorKind::Repetition || k == ValidatorKind::Style
}

impl ValidatorKind {
    /// The identifier of the validator.
    pub fn as_str(self) -> (r: &'static str)
        ensures
            r@ == kind_name(self),
    {
        match self {
            ValidatorKind::Character => "character",
            ValidatorKind::Voice => "voice",
            ValidatorKind::Repetition => "repetition",
            ValidatorKind::Plot => "plot",
            ValidatorKind::Style => "style",
        }
    }

    /// The validator with the given identifier; any other text is refused.
    pub fn parse(s: &str) -> (r: AppResult<ValidatorKind>)
        ensures
            r matches Ok(k) ==> kind_name(k) == s@,
            r is Err <==> (forall|k: ValidatorKind| kind_name(k) != s@),
            r matches Err(e) ==> e == AppError::Invariant(e->Invariant_0) && e->Invariant_0@
                == "validador desconocido: "@ + s@,
    {
        let v = chars_of(s);
        let kinds = [
            ValidatorKind::Character,
            ValidatorKind::Voice,
            ValidatorKind::Repetition,
            ValidatorKind::Plot,
            ValidatorKind::Style,
        ];
        let mut i: usize = 0;
        while i < 5
            invariant
                i <= 5,
                v@ == s@,
                kinds@ == seq![
                    ValidatorKind::Character,
                    ValidatorKind::Voice,
                    ValidatorKind::Repetition,
                    ValidatorKind::Plot,
                    ValidatorKind::Style,
                ],
                forall|j: int| 0 <= j < i ==> kind_name(#[trigger] kinds@[j]) != s@,
            decreases 5 - i,
        {
            let k = kinds[i];
            let name = chars_of(k.as_str());
            if chars_eq(&name, &v) {
                return Ok(k);
            }
            i += 1;
        }
        proof {
            assert forall|k: ValidatorKind| kind_name(k) != s@ by {
                match k {
                    ValidatorKind::Character => assert(kind_name(kinds@[0]) != s@),
                    ValidatorKind::Voice => assert(kind_name(kinds@[1]) != s@),
                    ValidatorKind::Repetition => assert(kind_name(kinds@[2]) != s@),
                    ValidatorKind::Plot => assert(kind_name(kinds@[3]) != s@),
                    ValidatorKind::Style => assert(kind_name(kinds@[4]) != s@),
                }
            }
        }
        let mut msg = String::from_str("validador desconocido: ");
        msg.append(s);
        Err(AppError::Invariant(msg))
    }

    /// Local heuristics need no model; the others do.
    pub fn is_local(self) -> (r: bool)
        ensures
            r == kind_is_local(self),
    {
        match self {
            ValidatorKind::Repetition | ValidatorKind::Style => true,
            _ => false,
        }
    }
}

/// One issue found in a text.
#[derive(Debug, PartialEq, Eq)]
pub struct Finding {
    pub validator: String,
    pub severity: Severity,
    pub title: String,
    pub detail: String,
    pub excerpt: Option<String>,
    pub suggestion: Option<String>,
}

/// A finding with its texts as character sequences.
pub struct FindingView {
    pub validator: Seq<char>,
    pub severity: Severity,
    pub title: Seq<char>,
    pub detail: Seq<char>,
    pub excerpt: Option<Seq<char>>,
    pub suggestion: Option<Seq<char>>,
}

/// The characters of an optional string.
pub open spec fn opt_view(o: Option<String>) -> Option<Seq<char>> {
    match o {
        Some(s) => Some(s@),
        None => None,
    }
}

impl View for Finding {
    type V = FindingView;

    open spec fn view(&self) -> FindingView {
        FindingView {
            validator: self.validator@,
            severity: self.severity,
            title: self.title@,
            detail: self.detail@,
            excerpt: opt_view(self.excerpt),
            suggestion: opt_view(self.suggestion),
        }
    }
}

/// A copy of an optional string.
fn clone_opt(o: &Option<String>) -> (r: Option<String>)
    ensures
        opt_view(r) == opt_view(*o),
{
    match o {
        Some(s) => Some(s.clone()),
        None => None,
    }
}

impl Clone for Finding {
    fn clone(&self) -> (r: Self)
        ensures
            r@ == self@,
    {
        Finding {
            validator: self.validator.clone(),
            severity: self.severity,
            title: self.title.clone(),
            detail: self.detail.clone(),
            excerpt: clone_opt(&self.excerpt),
            suggestion: clone_opt(&self.suggestion),
        }
    }
}

/// The views of a list of findings.
pub open spec fn finding_views(v: Seq<Finding>) -> Seq<FindingView> {
    v.map_values(|f: Finding| f@)
}

/// Inputs of a validation run, assembled by the caller.
#[derive(Debug, Clone, Default)]
pub struct ValidationInput {
    /// Plain text of the chapter or document being validated.
    pub text: String,
    /// Rendered codex block (characters, places, ...), for character and plot.
    pub codex_block: String,
    /// Sample of prior chapters, for the voice anchor.
    pub anchor_text: String,
}

/// How many findings of `s` have severity `sev`.
pub open spec fn count_severity(s: Seq<Finding>, sev: Severity) -> nat
    decreases s.len(),
{
    if s.len() == 0 {
        0
    } else {
        count_severity(s.drop_last(), sev) + if s.last().severity == sev {
            1nat
        } else {
            0nat
        }
    }
}

/// The plural suffix for a count.
pub open spec fn plural_suffix(n: nat) -> Seq<char> {
    if n == 1 {
        ""@
    } else {
        "s"@
    }
}

/// The summary line for the given counts, e.g. `1 crítico · 3 advertencias`.
pub open spec fn summary_text(crit: nat, warn: nat, info: nat) -> Seq<char> {
    if crit + warn + info == 0 {
        "sin hallazgos"@
    } else {
        let a: Seq<Seq<char>> = if crit > 0 {
            seq![decimal(crit) + " crítico"@ + plural_suffix(crit)]
        } else {
            Seq::empty()
        };
        let b: Seq<Seq<char>> = if warn > 0 {
            seq![decimal(warn) + " advertencia"@ + plural_suffix(warn)]
        } else {
            Seq::empty()
        };
        let c: Seq<Seq<char>> = if info > 0 {
            seq![decimal(info) + " info"@]
        } else {
            Seq::empty()
        };
        join(a + b + c, " · "@)
    }
}

/// `""` for one, `"s"` otherwise.
fn plural(n: usize) -> (r: &'static str)
    ensures
        r@ == plural_suffix(n as nat),
{
    if n == 1 {
        ""
    } else {
        "s"
    }
}

/// One summary part: the count, a label and the plural suffix.
fn count_part(n: usize, label: &str, pluralize: bool) -> (r: String)
    ensures
        r@ == decimal(n as nat) + label@ + if pluralize {
            plural_suffix(n as nat)
        } else {
            Seq::empty()
        },
{
    let mut s = String::new();
    push_decimal(&mut s, n as u128);
    s.append(label);
    if pluralize {
        s.append(plural(n));
    }
    proof {
        assert(Seq::<char>::empty() + decimal(n as nat) =~= decimal(n as nat));
        if !pluralize {
            assert(decimal(n as nat) + label@ =~= decimal(n as nat) + label@ + Seq::<char>::empty());
        }
    }
    s
}

/// Summarise findings for storage and the header line, e.g.
/// `1 crítico · 3 advertencias`; `sin hallazgos` when there are none.
pub fn summarize(findings: &[Finding]) -> (r: String)
    ensures
        r@ == summary_text(
            count_severity(findings@, Severity::Critical),
            count_severity(findings@, Severity::Warning),
            count_severity(findings@, Severity::Info),
        ),
{
    let mut crit: usize = 0;
    let mut warn: usize = 0;
    let mut info: usize = 0;
    let mut i: usize = 0;
    while i < findings.len()
        invariant
            i <= findings@.len(),
            crit == count_severity(findings@.take(i as int), Severity::Critical),
            warn == count_severity(findings@.take(i as int), Severity::Warning),
            info == count_severity(findings@.take(i as int), Severity::Info),
            crit + warn + info == i,
        decreases findings@.len() - i,
    {
        assert(findings@.take(i + 1).drop_last() =~= findings@.take(i as int));
        match findings[i].severity {
            Severity::Critical => crit += 1,
            Severity::Warning => warn += 1,
            Severity::Info => info += 1,
        }
        i += 1;
    }
    assert(findings@.take(findings@.len() as int) =~= findings@);
    if findings.len() == 0 {
        return String::from_str("sin hallazgos");
    }
    let mut parts: Vec<String> = Vec::new();
    if crit > 0 {
        parts.push(count_part(crit, " crítico", true));
    }
    if warn > 0 {
        parts.push(count_part(warn, " advertencia", true));
    }
    if info > 0 {
        parts.push(count_part(info, " info", false));
    }
    proof {
        let a: Seq<Seq<char>> = if crit > 0 {
            seq![decimal(crit as nat) + " crítico"@ + plural_suffix(crit as nat)]
        } else {
            Seq::empty()
        };
        let b: Seq<Seq<char>> = if warn > 0 {
            seq![decimal(warn as nat) + " advertencia"@ + plural_suffix(warn as nat)]
        } else {
            Seq::empty()
        };
        let c: Seq<Seq<char>> = if info > 0 {
            seq![decimal(info as nat) + " info"@]
        } else {
            Seq::empty()
        };
        assert(decimal(info as nat) + " info"@ + Seq::<char>::empty() =~= decimal(info as nat)
            + " info"@);
        assert(string_views(parts@) =~= a + b + c);
    }
    join_strings(&parts, " · ")
}

/// The answer format every model-backed validator is held to.
pub open spec fn json_contract() -> Seq<char> {
    "Devolvé EXCLUSIVAMENTE un array JSON (sin texto alrededor, sin ```), con esta forma: [{\"severity\":\"critical|warning|info\",\"title\":\"breve\",\"detail\":\"explicación\",\"excerpt\":\"fragmento exacto del texto\",\"suggestion\":\"arreglo propuesto\"}]. Si no encontrás problemas, devolvé exactamente []."@
}

/// Opening of the character validator's system prompt.
pub open spec fn character_head() -> Seq<char> {
    "Eres un editor de continuidad narrativa. Te doy el catálogo (codex) de entidades del proyecto y un fragmento del manuscrito. Detectá contradicciones entre el texto y el codex (apariencia, rasgos, motivaciones) o entre menciones dentro del propio texto. "@
}

/// Opening of the voice validator's system prompt.
pub open spec fn voice_head() -> Seq<char> {
    "Eres un editor de estilo. Te doy fragmentos de capítulos anteriores como REFERENCIA de voz narrativa y un capítulo NUEVO. Detectá desvíos de voz, punto de vista, tono o tiempo verbal del capítulo nuevo respecto de la referencia. "@
}

/// Opening of the plot validator's system prompt.
pub open spec fn plot_head() -> Seq<char> {
    "Eres un editor de estructura. Te doy el codex del proyecto y un fragmento del manuscrito. Detectá problemas de coherencia de trama y temporalidad: causalidad rota, saltos o contradicciones temporales, hilos abandonados y eventos establecidos que se ignoran. "@
}

/// The system prompt of a model-backed validator, given the codex block
/// and the voice anchor.
pub open spec fn validator_system(k: ValidatorKind, codex: Seq<char>, anchor: Seq<char>) -> Seq<
    char,
> {
    match k {
        ValidatorKind::Character => character_head() + json_contract() + "\n\n=== Codex ===\n"@
            + codex,
        ValidatorKind::Voice => voice_head() + json_contract()
            + "\n\n=== Referencia (capítulos anteriores) ===\n"@ + anchor,
        _ => plot_head() + json_contract() + "\n\n=== Codex ===\n"@ + codex,
    }
}

/// Build the chat messages for a model-backed validator: the system prompt
/// and the text as the user message. The local validators have no prompt.
pub fn messages_for(kind: ValidatorKind, input: &ValidationInput) -> (r: AppResult<Vec<ChatMessage>>)
    ensures
        kind_is_local(kind) <==> r is Err,
        r matches Err(e) ==> e == AppError::Invariant(e->Invariant_0) && e->Invariant_0@
            == "este validador es local, no usa prompt"@,
        r matches Ok(m) ==> m@.len() == 2 && m@[0].role == Role::System && m@[0].content@
            == validator_system(kind, input.codex_block@, input.anchor_text@) && m@[1].role
            == Role::User && m@[1].content@ == input.text@,
{
    let contract = "Devolvé EXCLUSIVAMENTE un array JSON (sin texto alrededor, sin ```), con esta forma: [{\"severity\":\"critical|warning|info\",\"title\":\"breve\",\"detail\":\"explicación\",\"excerpt\":\"fragmento exacto del texto\",\"suggestion\":\"arreglo propuesto\"}]. Si no encontrás problemas, devolvé exactamente [].";
    let mut system = match kind {
        ValidatorKind::Character => String::from_str(
            "Eres un editor de continuidad narrativa. Te doy el catálogo (codex) de entidades del proyecto y un fragmento del manuscrito. Detectá contradicciones entre el texto y el codex (apariencia, rasgos, motivaciones) o entre menciones dentro del propio texto. ",
        ),
        ValidatorKind::Voice => String::from_str(
            "Eres un editor de estilo. Te doy fragmentos de capítulos anteriores como REFERENCIA de voz narrativa y un capítulo NUEVO. Detectá desvíos de voz, punto de vista, tono o tiempo verbal del capítulo nuevo respecto de la referencia. ",
        ),
        ValidatorKind::Plot => String::from_str(
            "Eres un editor de estructura. Te doy el codex del proyecto y un fragmento del manuscrito. Detectá problemas de coherencia de trama y temporalidad: causalidad rota, saltos o contradicciones temporales, hilos abandonados y eventos establecidos que se ignoran. ",
        ),
        ValidatorKind::Repetition | ValidatorKind::Style => {
            return Err(AppError::Invariant(String::from_str("este validador es local, no usa prompt")));
        },
    };
    system.append(contract);
    match kind {
        ValidatorKind::Voice => {
            system.append("\n\n=== Referencia (capítulos anteriores) ===\n");
            system.append(input.anchor_text.as_str());
        },
        _ => {
            system.append("\n\n=== Codex ===\n");
            system.append(input.codex_block.as_str());
        },
    }
    let mut out: Vec<ChatMessage> = Vec::new();
    out.push(ChatMessage::system(system.as_str()));
    out.push(ChatMessage::user(input.text.as_str()));
    Ok(out)
}

/// The first position of `c` in `s`.
pub open spec fn first_pos(s: Seq<char>, c: char) -> Option<int> {
    find_from(s, seq![c], 0)
}

/// The last position of `c` in `s`.
pub open spec fn last_pos(s: Seq<char>, c: char) -> Option<int>
    decreases s.len(),
{
    if s.len() == 0 {
        None
    } else if s.last() == c {
        Some(s.len() - 1)
    } else {
        last_pos(s.drop_last(), c)
    }
}

/// The span from the first `[` to the last `]`, when the latter comes after.
pub open spec fn json_array_span(s: Seq<char>) -> Option<(int, int)> {
    match (first_pos(s, '['), last_pos(s, ']')) {
        (Some(a), Some(b)) => if b > a {
            Some((a, b))
        } else {
            None
        },
        _ => None,
    }
}

proof fn lemma_last_pos(s: Seq<char>, c: char)
    ensures
        last_pos(s, c) matches Some(b) ==> 0 <= b < s.len() && s[b] == c && forall|j: int|
            b < j < s.len() ==> s[j] != c,
        last_pos(s, c) is None ==> forall|j: int| 0 <= j < s.len() ==> s[j] != c,
    decreases s.len(),
{
    if s.len() > 0 && s.last() != c {
        lemma_last_pos(s.drop_last(), c);
        let p = s.drop_last();
        assert forall|j: int| 0 <= j < p.len() implies p[j] == s[j] by {}
    }
}

/// The first `[ ... ]` block of a model answer (models sometimes wrap the
/// array in prose or code fences).
pub fn extract_json_array(raw: &str) -> (r: Option<String>)
    ensures
        json_array_span(raw@) is None <==> r is None,
        r matches Some(t) ==> (json_array_span(raw@) matches Some(sp) && t@ == raw@.subrange(
            sp.0,
            sp.1 + 1,
        )),
{
    let v = chars_of(raw);
    let open = vec!['['];
    assert(open@ =~= seq!['[']);
    let start = match find_from_exec(&v, &open, 0) {
        Some(a) => a,
        None => {
            return None;
        },
    };
    assert(first_pos(v@, '[') == Some(start as int));
    let mut b: usize = v.len();
    assert(v@.take(b as int) =~= v@);
    while b > 0 && v[b - 1] != ']'
        invariant
            b <= v@.len(),
            v@ == raw@,
            last_pos(v@, ']') == last_pos(v@.take(b as int), ']'),
        decreases b,
    {
        assert(v@.take(b as int).drop_last() =~= v@.take(b - 1));
        b -= 1;
    }
    if b == 0 {
        assert(v@.take(0).len() == 0);
        return None;
    }
    proof {
        assert(v@.take(b as int).last() == ']');
        assert(last_pos(v@, ']') == Some(b - 1));
    }
    let end = b - 1;
    if end > start {
        let t = slice_chars(&v, start, end + 1);
        Some(string_of(&t))
    } else {
        None
    }
}

/// An entry of the model's array, with every field optional.
#[derive(Debug, Clone, Default)]
pub struct RawFinding {
    pub severity: Option<String>,
    pub title: Option<String>,
    pub detail: Option<String>,
    pub excerpt: Option<String>,
    pub suggestion: Option<String>,
}

/// The characters of an optional string, empty when absent.
pub open spec fn or_empty(o: Option<String>) -> Seq<char> {
    match o {
        Some(s) => s@,
        None => Seq::empty(),
    }
}

/// An optional text kept only when it has a non-blank character.
pub open spec fn non_blank(o: Option<String>) -> Option<Seq<char>> {
    match o {
        Some(s) => if trim(s@).len() > 0 {
            Some(s@)
        } else {
            None
        },
        None => None,
    }
}

/// The finding an entry becomes: none when both title and detail are blank;
/// otherwise trimmed texts, the title falling back to the detail, the
/// severity defaulting to a warning, blank excerpt and suggestion dropped.
pub open spec fn raw_finding(k: ValidatorKind, r: RawFinding) -> Option<FindingView> {
    let title = trim(or_empty(r.title));
    let detail = trim(or_empty(r.detail));
    if title.len() == 0 && detail.len() == 0 {
        None
    } else {
        Some(
            FindingView {
                validator: kind_name(k),
                severity: match r.severity {
                    Some(s) => severity_named(lowercase(trim(s@))),
                    None => Severity::Warning,
                },
                title: if title.len() == 0 {
                    detail
                } else {
                    title
                },
                detail: detail,
                excerpt: non_blank(r.excerpt),
                suggestion: non_blank(r.suggestion),
            },
        )
    }
}

/// The findings of a list of entries, in order, skipping the empty ones.
pub open spec fn raw_findings(k: ValidatorKind, rs: Seq<RawFinding>) -> Seq<FindingView>
    decreases rs.len(),
{
    if rs.len() == 0 {
        Seq::empty()
    } else {
        let prev = raw_findings(k, rs.drop_last());
        match raw_finding(k, rs.last()) {
            Some(f) => prev.push(f),
            None => prev,
        }
    }
}

/// Trimmed text of an optional string.
fn trimmed_or_empty(o: &Option<String>) -> (r: Vec<char>)
    ensures
        r@ == trim(or_empty(*o)),
{
    match o {
        Some(s) => trim_str(s.as_str()),
        None => {
            let e: Vec<char> = Vec::new();
            proof {
                assert(trim_start(Seq::<char>::empty()) =~= Seq::<char>::empty());
            }
            e
        },
    }
}

/// A copy of an optional string when it has a non-blank character.
fn keep_non_blank(o: &Option<String>) -> (r: Option<String>)
    ensures
        opt_view(r) == non_blank(*o),
{
    match o {
        Some(s) => {
            let t = trim_str(s.as_str());
            if t.len() > 0 {
                Some(s.clone())
            } else {
                None
            }
        },
        None => None,
    }
}

/// Turn the entries of a model's array into findings of validator `kind`
/// (see `raw_finding` for the rules).
pub fn findings_from_raw(kind: ValidatorKind, raws: &Vec<RawFinding>) -> (out: Vec<Finding>)
    ensures
        finding_views(out@) == raw_findings(kind, raws@),
{
    let mut out: Vec<Finding> = Vec::new();
    let mut i: usize = 0;
    while i < raws.len()
        invariant
            i <= raws@.len(),
            finding_views(out@) == raw_findings(kind, raws@.take(i as int)),
        decreases raws@.len() - i,
    {
        let r = &raws[i];
        assert(raws@.take(i + 1).drop_last() =~= raws@.take(i as int));
        assert(raws@.take(i + 1).last() == *r);
        let title = trimmed_or_empty(&r.title);
        let detail = trimmed_or_empty(&r.detail);
        if title.len() > 0 || detail.len() > 0 {
            let severity = match &r.severity {
                Some(s) => Severity::parse(s.as_str()),
                None => Severity::Warning,
            };
            let title_text = if title.len() == 0 {
                string_of(&detail)
            } else {
                string_of(&title)
            };
            let f = Finding {
                validator: String::from_str(kind.as_str()),
                severity,
                title: title_text,
                detail: string_of(&detail),
                excerpt: keep_non_blank(&r.excerpt),
                suggestion: keep_non_blank(&r.suggestion),
            };
            let ghost before = out@;
            out.push(f);
            assert(finding_views(out@) =~= finding_views(before).push(f@));
        }
        i += 1;
    }
    assert(raws@.take(raws@.len() as int) =~= raws@);
    out
}

/// Words too common to make a phrase a tic on their own (Spanish and
/// English).
pub open spec fn stopwords() -> Seq<Seq<char>> {
    seq![
        "el"@, "la"@, "los"@, "las"@, "un"@, "una"@, "unos"@, "unas"@, "de"@, "del"@, "y"@,
        "o"@, "que"@, "en"@, "a"@, "se"@, "su"@, "sus"@, "con"@, "por"@, "para"@, "lo"@,
        "le"@, "les"@, "al"@, "es"@, "no"@, "más"@, "como"@, "pero"@, "the"@, "an"@, "of"@,
        "and"@, "or"@, "to"@, "in"@, "is"@, "it"@, "that"@, "for"@, "with"@, "as"@, "was"@,
        "were"@, "be"@, "on"@, "at"@, "by"@, "he"@, "she"@, "they"@,
    ]
}

/// Whether `w` is one of the stopwords.
pub fn is_stopword(w: &str) -> (r: bool)
    ensures
        r == stopwords().contains(w@),
{
    let list = [
        "el", "la", "los", "las", "un", "una", "unos", "unas", "de", "del", "y", "o", "que", "en",
        "a", "se", "su", "sus", "con", "por", "para", "lo", "le", "les", "al", "es", "no", "más",
        "como", "pero", "the", "an", "of", "and", "or", "to", "in", "is", "it", "that", "for",
        "with", "as", "was", "were", "be", "on", "at", "by", "he", "she", "they",
    ];
    let ghost names = list@.map_values(|x: &str| x@);
    assert(names =~= stopwords());
    let v = chars_of(w);
    let mut i: usize = 0;
    while i < list.len()
        invariant
            i <= list@.len(),
            names == list@.map_values(|x: &str| x@),
            names == stopwords(),
            v@ == w@,
            forall|j: int| 0 <= j < i ==> names[j] != w@,
        decreases list@.len() - i,
    {
        let cand = chars_of(list[i]);
        if chars_eq(&cand, &v) {
            assert(names[i as int] == w@);
            return true;
        }
        i += 1;
    }
    proof {
        if stopwords().contains(w@) {
            let j = choose|j: int| 0 <= j < stopwords().len() && stopwords()[j] == w@;
            assert(names[j] == w@);
        }
    }
    false
}

/// The lower-cased alphanumeric runs of a text.
pub open spec fn tokens(s: Seq<char>) -> Seq<Seq<char>> {
    fields(s, Sep::NonAlphanumeric).map_values(|t: Seq<char>| lowercase(t))
}

/// Split a text into lower-cased alphanumeric runs.
pub fn tokenize(text: &str) -> (out: Vec<String>)
    ensures
        string_views(out@) == tokens(text@),
{
    let v = chars_of(text);
    let parts = fields_exec(&v, Sep::NonAlphanumeric);
    let mut out: Vec<String> = Vec::new();
    let mut i: usize = 0;
    while i < parts.len()
        invariant
            i <= parts@.len(),
            views(parts@) == fields(text@, Sep::NonAlphanumeric),
            v@ == text@,
            string_views(out@) == tokens(text@).take(i as int),
        decreases parts@.len() - i,
    {
        let piece = string_of(&parts[i]);
        let low = to_lowercase(piece.as_str());
        let ghost before = out@;
        out.push(low);
        proof {
            assert(views(parts@)[i as int] == parts@[i as int]@);
            assert(string_views(out@) =~= string_views(before).push(low@));
            assert(tokens(text@).take(i + 1) =~= tokens(text@).take(i as int).push(low@));
        }
        i += 1;
    }
    assert(tokens(text@).take(parts@.len() as int) =~= tokens(text@));
    out
}

/// A window of words qualifies as a phrase unless every word is a stopword
/// or shorter than two bytes.
pub open spec fn qualifies(w: Seq<Seq<char>>) -> bool {
    !(forall|j: int| 0 <= j < w.len() ==> stopwords().contains(#[trigger] w[j]) || utf8_len(w[j]) < 2)
}

/// The qualifying `n`-word phrases of `toks` starting at `i` or later.
pub open spec fn grams_from(toks: Seq<Seq<char>>, n: nat, i: int) -> Seq<Seq<char>>
    decreases toks.len() + 1 - i,
{
    if i < 0 || i + n > toks.len() {
        Seq::empty()
    } else {
        let w = toks.subrange(i, i + n);
        let here: Seq<Seq<char>> = if qualifies(w) {
            seq![join(w, " "@)]
        } else {
            Seq::empty()
        };
        here + grams_from(toks, n, i + 1)
    }
}

/// Every qualifying trigram, then every qualifying bigram.
pub open spec fn all_grams(toks: Seq<Seq<char>>) -> Seq<Seq<char>> {
    grams_from(toks, 3, 0) + grams_from(toks, 2, 0)
}

/// The distinct elements of a list, in order of first occurrence.
pub open spec fn distinct(s: Seq<Seq<char>>) -> Seq<Seq<char>>
    decreases s.len(),
{
    if s.len() == 0 {
        Seq::empty()
    } else if s.drop_last().contains(s.last()) {
        distinct(s.drop_last())
    } else {
        distinct(s.drop_last()).push(s.last())
    }
}

/// How often `p` occurs in `s`.
pub open spec fn count_in(s: Seq<Seq<char>>, p: Seq<char>) -> nat
    decreases s.len(),
{
    if s.len() == 0 {
        0
    } else {
        count_in(s.drop_last(), p) + if s.last() == p {
            1nat
        } else {
            0nat
        }
    }
}

pub proof fn lemma_distinct(s: Seq<Seq<char>>)
    ensures
        forall|p: Seq<char>| distinct(s).contains(p) <==> s.contains(p),
        forall|a: int, b: int|
            0 <= a < b < distinct(s).len() ==> distinct(s)[a] != distinct(s)[b],
        forall|a: int| 0 <= a < distinct(s).len() ==> count_in(s, #[trigger] distinct(s)[a]) >= 1,
    decreases s.len(),
{
    if s.len() > 0 {
        let p = s.drop_last();
        lemma_distinct(p);
        lemma_count_le(s);
        assert forall|q: Seq<char>| distinct(s).contains(q) <==> s.contains(q) by {
            if s.contains(q) && q != s.last() {
                let j = choose|j: int| 0 <= j < s.len() && s[j] == q;
                assert(p[j] == q);
            }
            if p.contains(q) {
                let j = choose|j: int| 0 <= j < p.len() && p[j] == q;
                assert(s[j] == q);
            }
            if distinct(s).contains(q) && !distinct(p).contains(q) {
                assert(q == s.last());
                assert(s[s.len() - 1] == q);
            }
            if q == s.last() && p.contains(q) {
                assert(distinct(p).contains(q));
            }
            if q == s.last() && !p.contains(q) {
                assert(distinct(s)[distinct(s).len() - 1] == q);
            }
            if distinct(p).contains(q) {
                let j = choose|j: int| 0 <= j < distinct(p).len() && distinct(p)[j] == q;
                assert(distinct(s)[j] == q);
            }
        }
        assert forall|a: int| 0 <= a < distinct(s).len() implies count_in(
            s,
            #[trigger] distinct(s)[a],
        ) >= 1 by {
            if a < distinct(p).len() {
                assert(distinct(s)[a] == distinct(p)[a]);
                assert(count_in(p, distinct(p)[a]) >= 1);
            }
        }
    }
}

pub proof fn lemma_count_le(s: Seq<Seq<char>>)
    ensures
        forall|q: Seq<char>| #[trigger] count_in(s, q) <= s.len(),
    decreases s.len(),
{
    if s.len() > 0 {
        lemma_count_le(s.drop_last());
        assert forall|q: Seq<char>| #[trigger] count_in(s, q) <= s.len() by {
            assert(count_in(s.drop_last(), q) <= s.drop_last().len());
        }
    }
}

/// Tally a list: its distinct elements in order of first occurrence, with
/// how often each occurs.
pub fn tally(list: &Vec<Vec<char>>) -> (r: (Vec<Vec<char>>, Vec<u128>))
    ensures
        views(r.0@) == distinct(views(list@)),
        r.1@.len() == r.0@.len(),
        forall|j: int|
            0 <= j < r.1@.len() ==> r.1@[j] == count_in(views(list@), #[trigger] r.0@[j]@),
{
    let mut keys: Vec<Vec<char>> = Vec::new();
    let mut counts: Vec<u128> = Vec::new();
    let mut i: usize = 0;
    while i < list.len()
        invariant
            i <= list@.len(),
            views(keys@) == distinct(views(list@).take(i as int)),
            counts@.len() == keys@.len(),
            forall|j: int|
                0 <= j < counts@.len() ==> counts@[j] == count_in(
                    views(list@).take(i as int),
                    #[trigger] keys@[j]@,
                ),
            forall|j: int| 0 <= j < counts@.len() ==> counts@[j] <= i,
        decreases list@.len() - i,
    {
        let ghost pre = views(list@).take(i as int);
        let ghost nxt = views(list@).take(i + 1);
        let x = &list[i];
        proof {
            assert(nxt.drop_last() =~= pre);
            assert(nxt.last() == x@);
            lemma_distinct(pre);
        }
        let mut j: usize = 0;
        let mut found = false;
        while j < keys.len()
            invariant_except_break
                !found,
            invariant
                j <= keys@.len(),
                forall|t: int| 0 <= t < j ==> keys@[t]@ != x@,
            ensures
                found ==> j < keys@.len() && keys@[j as int]@ == x@,
                !found ==> forall|t: int| 0 <= t < keys@.len() ==> keys@[t]@ != x@,
            decreases keys@.len() - j,
        {
            if chars_eq(&keys[j], x) {
                found = true;
                break;
            }
            j += 1;
        }
        if found {
            let c = counts[j];
            counts.set(j, c + 1);
            proof {
                assert(keys@[j as int]@ == x@);
                assert(views(keys@)[j as int] == x@);
                assert(pre.contains(x@));
                assert(distinct(nxt) == distinct(pre));
                assert forall|t: int| 0 <= t < counts@.len() implies counts@[t] == count_in(
                    nxt,
                    #[trigger] keys@[t]@,
                ) by {
                    if t != j {
                        assert(views(keys@)[t] == keys@[t]@);
                        assert(keys@[t]@ != x@);
                    }
                }
            }
        } else {
            let ghost k0 = keys@;
            keys.push(x.clone());
            counts.push(1);
            proof {
                if pre.contains(x@) {
                    assert(distinct(pre).contains(x@));
                    let q = choose|q: int| 0 <= q < distinct(pre).len() && distinct(pre)[q] == x@;
                    assert(views(k0)[q] == k0[q]@);
                    assert(false);
                }
                assert(views(keys@) =~= views(k0).push(x@));
                assert(count_in(pre, x@) == 0) by {
                    lemma_count_zero(pre, x@);
                }
                assert forall|t: int| 0 <= t < counts@.len() implies counts@[t] == count_in(
                    nxt,
                    #[trigger] keys@[t]@,
                ) by {
                    if t < k0.len() {
                        assert(keys@[t] == k0[t]);
                    }
                }
            }
        }
        i += 1;
    }
    assert(views(list@).take(list@.len() as int) =~= views(list@));
    (keys, counts)
}

pub proof fn lemma_count_zero(s: Seq<Seq<char>>, p: Seq<char>)
    requires
        !s.contains(p),
    ensures
        count_in(s, p) == 0,
    decreases s.len(),
{
    if s.len() > 0 {
        assert(s[s.len() - 1] == s.last());
        assert(!s.drop_last().contains(p)) by {
            if s.drop_last().contains(p) {
                let j = choose|j: int| 0 <= j < s.drop_last().len() && s.drop_last()[j] == p;
                assert(s[j] == p);
            }
        }
        lemma_count_zero(s.drop_last(), p);
    }
}

/// The lower-cased alphanumeric runs of a text, as character vectors.
fn token_chars(text: &str) -> (out: Vec<Vec<char>>)
    ensures
        views(out@) == tokens(text@),
{
    let v = chars_of(text);
    let parts = fields_exec(&v, Sep::NonAlphanumeric);
    let mut out: Vec<Vec<char>> = Vec::new();
    let mut i: usize = 0;
    while i < parts.len()
        invariant
            i <= parts@.len(),
            views(parts@) == fields(text@, Sep::NonAlphanumeric),
            views(out@) == tokens(text@).take(i as int),
        decreases parts@.len() - i,
    {
        let piece = string_of(&parts[i]);
        let low = chars_of(to_lowercase(piece.as_str()).as_str());
        let ghost before = out@;
        out.push(low);
        proof {
            assert(views(parts@)[i as int] == parts@[i as int]@);
            assert(views(out@) =~= views(before).push(low@));
            assert(tokens(text@).take(i + 1) =~= tokens(text@).take(i as int).push(low@));
        }
        i += 1;
    }
    assert(tokens(text@).take(parts@.len() as int) =~= tokens(text@));
    out
}

/// Whether the `n` tokens from `i` on make a qualifying phrase.
fn window_qualifies(toks: &Vec<Vec<char>>, i: usize, n: usize) -> (r: bool)
    requires
        i + n <= toks.len(),
    ensures
        r == qualifies(views(toks@).subrange(i as int, i + n)),
{
    let ghost w = views(toks@).subrange(i as int, i + n);
    let mut j: usize = 0;
    while j < n
        invariant
            j <= n,
            i + n <= toks.len(),
            w == views(toks@).subrange(i as int, i + n),
            forall|t: int| 0 <= t < j ==> stopwords().contains(#[trigger] w[t]) || utf8_len(w[t]) < 2,
        decreases n - j,
    {
        let word = &toks[i + j];
        assert(w[j as int] == word@);
        let ws = string_of(word);
        if !(is_stopword(ws.as_str()) || utf8_len_exec(word) < 2) {
            return true;
        }
        j += 1;
    }
    false
}

proof fn lemma_join_step(w: Seq<Seq<char>>, j: int, sep: Seq<char>)
    requires
        1 <= j < w.len(),
    ensures
        join(w.take(j + 1), sep) == join(w.take(j), sep) + sep + w[j],
{
    assert(w.take(j + 1).drop_last() =~= w.take(j));
}

/// The `n` tokens from `i` on, joined by single spaces.
fn join_window(toks: &Vec<Vec<char>>, i: usize, n: usize) -> (r: Vec<char>)
    requires
        1 <= n,
        i + n <= toks.len(),
    ensures
        r@ == join(views(toks@).subrange(i as int, i + n), " "@),
{
    let ghost w = views(toks@).subrange(i as int, i + n);
    let sp = chars_of(" ");
    let mut out = toks[i].clone();
    assert(out@ =~= toks@[i as int]@);
    assert(w.take(1) =~= seq![w[0]]);
    let mut j: usize = 1;
    while j < n
        invariant
            1 <= j <= n,
            i + n <= toks.len(),
            sp@ == " "@,
            w == views(toks@).subrange(i as int, i + n),
            out@ == join(w.take(j as int), " "@),
        decreases n - j,
    {
        proof {
            lemma_join_step(w, j as int, " "@);
        }
        extend_chars(&mut out, &sp);
        extend_chars(&mut out, &toks[i + j]);
        assert(w[j as int] == toks@[i + j]@);
        j += 1;
    }
    assert(w.take(n as int) =~= w);
    out
}

/// The qualifying `n`-word phrases of `toks`, in order.
fn grams_exec(toks: &Vec<Vec<char>>, n: usize) -> (out: Vec<Vec<char>>)
    requires
        1 <= n,
    ensures
        views(out@) == grams_from(views(toks@), n as nat, 0),
{
    let mut out: Vec<Vec<char>> = Vec::new();
    if toks.len() < n {
        return out;
    }
    let last = toks.len() - n;
    let mut i: usize = 0;
    while i <= last
        invariant
            1 <= n,
            last + n == toks.len(),
            i <= last + 1,
            views(out@) + grams_from(views(toks@), n as nat, i as int) == grams_from(
                views(toks@),
                n as nat,
                0,
            ),
        decreases last + 1 - i,
    {
        let ghost before = views(out@);
        let ghost rest = grams_from(views(toks@), n as nat, i + 1);
        if window_qualifies(toks, i, n) {
            let g = join_window(toks, i, n);
            out.push(g);
            assert(views(out@) =~= before.push(g@));
            assert(views(out@) + rest =~= before + (seq![g@] + rest));
        } else {
            assert(before + rest =~= before + (Seq::<Seq<char>>::empty() + rest));
        }
        i += 1;
    }
    assert(views(out@) + grams_from(views(toks@), n as nat, i as int) =~= views(out@));
    out
}

/// A phrase with its number of occurrences.
pub open spec fn hit_views(v: Seq<(Vec<char>, u128)>) -> Seq<(Seq<char>, nat)> {
    v.map_values(|h: (Vec<char>, u128)| (h.0@, h.1 as nat))
}

/// The distinct phrases of `g` (in `keys` order) seen at least three times
/// and made of more than one word, with their counts.
pub open spec fn frequent(keys: Seq<Seq<char>>, g: Seq<Seq<char>>) -> Seq<(Seq<char>, nat)>
    decreases keys.len(),
{
    if keys.len() == 0 {
        Seq::empty()
    } else {
        let prev = frequent(keys.drop_last(), g);
        let k = keys.last();
        if count_in(g, k) >= 3 && contains(k, " "@) {
            prev.push((k, count_in(g, k)))
        } else {
            prev
        }
    }
}

/// `a` ranks before `b`: more occurrences, or as many and more bytes.
pub open spec fn ranks_before(a: (Seq<char>, nat), b: (Seq<char>, nat)) -> bool {
    a.1 > b.1 || (a.1 == b.1 && utf8_len(a.0) > utf8_len(b.0))
}

/// Insert `x` before the first element it ranks before.
pub open spec fn insert_ranked(s: Seq<(Seq<char>, nat)>, x: (Seq<char>, nat)) -> Seq<
    (Seq<char>, nat),
>
    decreases s.len(),
{
    if s.len() == 0 {
        seq![x]
    } else if ranks_before(x, s[0]) {
        seq![x] + s
    } else {
        seq![s[0]] + insert_ranked(s.drop_first(), x)
    }
}

/// Stable sort: most-repeated first, longer phrases first among equals,
/// and otherwise the order of the list.
pub open spec fn rank_sort(s: Seq<(Seq<char>, nat)>) -> Seq<(Seq<char>, nat)>
    decreases s.len(),
{
    if s.len() == 0 {
        Seq::empty()
    } else {
        insert_ranked(rank_sort(s.drop_last()), s.last())
    }
}

proof fn lemma_insert_ranked(s: Seq<(Seq<char>, nat)>, x: (Seq<char>, nat), j: int)
    requires
        0 <= j <= s.len(),
        forall|t: int| 0 <= t < j ==> !ranks_before(x, #[trigger] s[t]),
        j < s.len() ==> ranks_before(x, s[j]),
    ensures
        insert_ranked(s, x) == s.insert(j, x),
    decreases s.len(),
{
    if s.len() == 0 {
        assert(s.insert(j, x) =~= seq![x]);
    } else if j == 0 {
        assert(s.insert(0, x) =~= seq![x] + s);
    } else {
        assert(!ranks_before(x, s[0]));
        let d = s.drop_first();
        assert forall|t: int| 0 <= t < j - 1 implies !ranks_before(x, #[trigger] d[t]) by {
            assert(d[t] == s[t + 1]);
        }
        if j - 1 < d.len() {
            assert(d[j - 1] == s[j]);
        }
        lemma_insert_ranked(d, x, j - 1);
        assert(seq![s[0]] + d.insert(j - 1, x) =~= s.insert(j, x));
    }
}

/// A repetition finding for a phrase seen `c` times.
pub open spec fn repetition_finding(p: Seq<char>, c: nat) -> FindingView {
    FindingView {
        validator: "repetition"@,
        severity: Severity::Info,
        title: "Frase repetida: «"@ + p + "»"@,
        detail: "Aparece "@ + decimal(c) + " veces. Considerá variar la redacción."@,
        excerpt: Some(p),
        suggestion: None,
    }
}

/// The repetition findings of a text: its phrases of two or three words
/// (not made only of stopwords or one-byte words) seen at least three
/// times, most-repeated and then longest first, at most twelve.
pub open spec fn repetition_findings(text: Seq<char>) -> Seq<FindingView> {
    let toks = tokens(text);
    if toks.len() < 2 {
        Seq::empty()
    } else {
        let g = all_grams(toks);
        let ranked = rank_sort(frequent(distinct(g), g));
        let top = if ranked.len() > 12 {
            ranked.take(12)
        } else {
            ranked
        };
        top.map_values(|h: (Seq<char>, nat)| repetition_finding(h.0, h.1))
    }
}

/// How many times the words `w` stand one after another in `toks` from
/// position `i` on.
pub open spec fn window_count(toks: Seq<Seq<char>>, w: Seq<Seq<char>>, i: int) -> nat
    decreases toks.len() + 1 - i,
{
    if i < 0 || i + w.len() > toks.len() {
        0
    } else {
        window_count(toks, w, i + 1) + if toks.subrange(i, i + w.len() as int) == w {
            1nat
        } else {
            0nat
        }
    }
}

proof fn lemma_count_concat(a: Seq<Seq<char>>, b: Seq<Seq<char>>, p: Seq<char>)
    ensures
        count_in(a + b, p) == count_in(a, p) + count_in(b, p),
    decreases b.len(),
{
    if b.len() == 0 {
        assert(a + b =~= a);
    } else {
        lemma_count_concat(a, b.drop_last(), p);
        assert((a + b).drop_last() =~= a + b.drop_last());
        assert((a + b).last() == b.last());
    }
}

/// Every occurrence of a qualifying phrase of `w.len()` words is one of the
/// phrases of that many words.
proof fn lemma_phrase_count(toks: Seq<Seq<char>>, w: Seq<Seq<char>>, i: int)
    requires
        qualifies(w),
    ensures
        count_in(grams_from(toks, w.len(), i), join(w, " "@)) >= window_count(toks, w, i),
    decreases toks.len() + 1 - i,
{
    let n = w.len();
    if !(i < 0 || i + n > toks.len()) {
        lemma_phrase_count(toks, w, i + 1);
        let win = toks.subrange(i, i + n);
        let here: Seq<Seq<char>> = if qualifies(win) {
            seq![join(win, " "@)]
        } else {
            Seq::empty()
        };
        lemma_count_concat(here, grams_from(toks, n, i + 1), join(w, " "@));
        if win == w {
            assert(qualifies(win));
            assert(here == seq![join(w, " "@)]);
            assert(here.drop_last() =~= Seq::<Seq<char>>::empty());
            assert(here.last() == join(w, " "@));
            assert(count_in(here.drop_last(), join(w, " "@)) == 0);
            assert(count_in(here, join(w, " "@)) == 1);
        }
    }
}

/// A phrase of two or more words holds a space.
proof fn lemma_join_has_space(w: Seq<Seq<char>>)
    requires
        w.len() >= 2,
    ensures
        contains(join(w, " "@), " "@),
{
    reveal_strlit(" ");
    let a = join(w.drop_last(), " "@);
    let j = join(w, " "@);
    assert(j == a + " "@ + w.last());
    assert(j.subrange(a.len() as int, a.len() + 1int) =~= " "@);
    assert(crate::text::occurs_at(j, " "@, a.len() as int));
}

/// A key seen three times with a space in it is among the frequent ones.
proof fn lemma_frequent_has(keys: Seq<Seq<char>>, g: Seq<Seq<char>>, k: Seq<char>)
    requires
        keys.contains(k),
        count_in(g, k) >= 3,
        contains(k, " "@),
    ensures
        frequent(keys, g).contains((k, count_in(g, k))),
    decreases keys.len(),
{
    if keys.last() == k {
        let f = frequent(keys, g);
        assert(f[f.len() - 1] == (k, count_in(g, k)));
    } else {
        let j = choose|j: int| 0 <= j < keys.len() && keys[j] == k;
        assert(keys.drop_last()[j] == k);
        lemma_frequent_has(keys.drop_last(), g, k);
        let prev = frequent(keys.drop_last(), g);
        let t = choose|t: int| 0 <= t < prev.len() && prev[t] == (k, count_in(g, k));
        assert(frequent(keys, g)[t] == (k, count_in(g, k)));
    }
}

/// Inserting keeps what was there and adds the new element.
proof fn lemma_insert_ranked_has(s: Seq<(Seq<char>, nat)>, x: (Seq<char>, nat), y: (Seq<char>, nat))
    requires
        s.contains(y) || y == x,
    ensures
        insert_ranked(s, x).contains(y),
    decreases s.len(),
{
    let r = insert_ranked(s, x);
    if s.len() == 0 {
        assert(r[0] == x);
    } else if ranks_before(x, s[0]) {
        if y == x {
            assert(r[0] == x);
        } else {
            let j = choose|j: int| 0 <= j < s.len() && s[j] == y;
            assert(r[j + 1] == y);
        }
    } else if y == s[0] {
        assert(r[0] == y);
    } else {
        let d = s.drop_first();
        if y != x {
            let j = choose|j: int| 0 <= j < s.len() && s[j] == y;
            assert(d[j - 1] == y);
        }
        lemma_insert_ranked_has(d, x, y);
        let rest = insert_ranked(d, x);
        let t = choose|t: int| 0 <= t < rest.len() && rest[t] == y;
        assert(r[t + 1] == y);
    }
}

/// Ranking keeps every element.
proof fn lemma_rank_sort_has(s: Seq<(Seq<char>, nat)>, y: (Seq<char>, nat))
    requires
        s.contains(y),
    ensures
        rank_sort(s).contains(y),
    decreases s.len(),
{
    if s.last() == y {
        lemma_insert_ranked_has(rank_sort(s.drop_last()), s.last(), y);
    } else {
        let j = choose|j: int| 0 <= j < s.len() && s[j] == y;
        assert(s.drop_last()[j] == y);
        lemma_rank_sort_has(s.drop_last(), y);
        lemma_insert_ranked_has(rank_sort(s.drop_last()), s.last(), y);
    }
}

/// A phrase of two or three words that carries a content word and stands
/// at least three times in the text is reported as a repetition, unless
/// the twelve findings allowed are all taken.
pub proof fn law_repeated_phrases_are_reported(text: Seq<char>, w: Seq<Seq<char>>)
    requires
        2 <= w.len() <= 3,
        qualifies(w),
        window_count(tokens(text), w, 0) >= 3,
    ensures
        repetition_findings(text).len() == 12 || exists|k: int|
            0 <= k < repetition_findings(text).len() && (#[trigger] repetition_findings(text)[k]).excerpt
                == Some(join(w, " "@)),
{
    let toks = tokens(text);
    let p = join(w, " "@);
    if toks.len() < 2 {
        assert(window_count(toks, w, 0) == 0);
    }
    let g = all_grams(toks);
    lemma_phrase_count(toks, w, 0);
    lemma_count_concat(grams_from(toks, 3, 0), grams_from(toks, 2, 0), p);
    let c = count_in(g, p);
    assert(g.contains(p)) by {
        if !g.contains(p) {
            lemma_count_zero(g, p);
        }
    }
    lemma_distinct(g);
    lemma_join_has_space(w);
    lemma_frequent_has(distinct(g), g, p);
    let ranked = rank_sort(frequent(distinct(g), g));
    lemma_rank_sort_has(frequent(distinct(g), g), (p, c));
    let t = choose|t: int| 0 <= t < ranked.len() && ranked[t] == (p, c);
    if ranked.len() <= 12 {
        assert(repetition_findings(text)[t].excerpt == Some(p));
    }
}

/// Build the finding for a repeated phrase.
fn make_repetition_finding(p: &Vec<char>, c: u128) -> (f: Finding)
    ensures
        f@ == repetition_finding(p@, c as nat),
{
    let ps = string_of(p);
    let mut title = String::from_str("Frase repetida: «");
    title.append(ps.as_str());
    title.append("»");
    let mut detail = String::from_str("Aparece ");
    push_decimal(&mut detail, c);
    detail.append(" veces. Considerá variar la redacción.");
    let f = Finding {
        validator: String::from_str(ValidatorKind::Repetition.as_str()),
        severity: Severity::Info,
        title,
        detail,
        excerpt: Some(ps),
        suggestion: None,
    };
    assert(f@.validator == "repetition"@);
    f
}

/// Detect repeated phrases (bigrams and trigrams) frequent enough to read
/// as a tic; a phrase counts only if it carries a content word.
pub fn detect_repetitions(text: &str) -> (out: Vec<Finding>)
    ensures
        finding_views(out@) == repetition_findings(text@),
{
    let toks = token_chars(text);
    if toks.len() < 2 {
        let e: Vec<Finding> = Vec::new();
        assert(finding_views(e@) =~= Seq::<FindingView>::empty());
        return e;
    }
    let mut grams = grams_exec(&toks, 3);
    let bigrams = grams_exec(&toks, 2);
    let ghost g3 = views(grams@);
    let mut b: usize = 0;
    while b < bigrams.len()
        invariant
            b <= bigrams@.len(),
            views(grams@) == g3 + views(bigrams@).take(b as int),
        decreases bigrams@.len() - b,
    {
        let ghost before = views(grams@);
        grams.push(bigrams[b].clone());
        assert(views(grams@) =~= before.push(bigrams@[b as int]@));
        assert(views(bigrams@).take(b + 1) =~= views(bigrams@).take(b as int).push(
            bigrams@[b as int]@,
        ));
        b += 1;
    }
    assert(views(bigrams@).take(bigrams@.len() as int) =~= views(bigrams@));
    let ghost g = views(grams@);
    assert(g == all_grams(tokens(text@)));
    let (keys, counts) = tally(&grams);
    let sp = chars_of(" ");
    // The frequent phrases, in order of first occurrence.
    let mut hits: Vec<(Vec<char>, u128)> = Vec::new();
    let mut k: usize = 0;
    while k < keys.len()
        invariant
            k <= keys@.len(),
            counts@.len() == keys@.len(),
            sp@ == " "@,
            views(keys@) == distinct(g),
            forall|j: int| 0 <= j < counts@.len() ==> counts@[j] == count_in(g, #[trigger] keys@[j]@),
            hit_views(hits@) == frequent(views(keys@).take(k as int), g),
        decreases keys@.len() - k,
    {
        proof {
            assert(views(keys@).take(k + 1).drop_last() =~= views(keys@).take(k as int));
            assert(views(keys@).take(k + 1).last() == keys@[k as int]@);
        }
        if counts[k] >= 3 && contains_exec(&keys[k], &sp) {
            let ghost before = hits@;
            hits.push((keys[k].clone(), counts[k]));
            assert(hit_views(hits@) =~= hit_views(before).push((keys@[k as int]@, counts@[k as int] as nat)));
        }
        k += 1;
    }
    assert(views(keys@).take(keys@.len() as int) =~= views(keys@));
    // Stable insertion by rank.
    let mut ranked: Vec<(Vec<char>, u128)> = Vec::new();
    let mut h: usize = 0;
    while h < hits.len()
        invariant
            h <= hits@.len(),
            hit_views(ranked@) == rank_sort(hit_views(hits@).take(h as int)),
        decreases hits@.len() - h,
    {
        let x = &hits[h];
        let xl = utf8_len_exec(&x.0);
        let ghost xv = (x.0@, x.1 as nat);
        let mut j: usize = 0;
        let mut stop = false;
        while j < ranked.len()
            invariant_except_break
                !stop,
            invariant
                j <= ranked@.len(),
                xl == utf8_len(x.0@),
                xv == (x.0@, x.1 as nat),
                forall|t: int| 0 <= t < j ==> !ranks_before(xv, #[trigger] hit_views(ranked@)[t]),
            ensures
                j <= ranked@.len(),
                forall|t: int| 0 <= t < j ==> !ranks_before(xv, #[trigger] hit_views(ranked@)[t]),
                j < ranked@.len() ==> ranks_before(xv, hit_views(ranked@)[j as int]),
            decreases ranked@.len() - j,
        {
            let yl = utf8_len_exec(&ranked[j].0);
            if x.1 > ranked[j].1 || (x.1 == ranked[j].1 && xl > yl) {
                stop = true;
                break;
            }
            j += 1;
        }
        proof {
            lemma_insert_ranked(hit_views(ranked@), xv, j as int);
            assert(hit_views(hits@).take(h + 1).drop_last() =~= hit_views(hits@).take(h as int));
        }
        let ghost r0 = ranked@;
        ranked.insert(j, (x.0.clone(), x.1));
        assert(hit_views(ranked@) =~= hit_views(r0).insert(j as int, xv));
        h += 1;
    }
    assert(hit_views(hits@).take(hits@.len() as int) =~= hit_views(hits@));
    let mut out: Vec<Finding> = Vec::new();
    let mut t: usize = 0;
    let ghost top = if hit_views(ranked@).len() > 12 {
        hit_views(ranked@).take(12)
    } else {
        hit_views(ranked@)
    };
    while t < ranked.len() && t < 12
        invariant
            t <= ranked@.len(),
            t <= 12,
            top == (if hit_views(ranked@).len() > 12 {
                hit_views(ranked@).take(12)
            } else {
                hit_views(ranked@)
            }),
            finding_views(out@) == top.take(t as int).map_values(
                |hv: (Seq<char>, nat)| repetition_finding(hv.0, hv.1),
            ),
        decreases ranked@.len() - t,
    {
        let f = make_repetition_finding(&ranked[t].0, ranked[t].1);
        let ghost before = out@;
        out.push(f);
        proof {
            assert(top[t as int] == hit_views(ranked@)[t as int]);
            assert(finding_views(out@) =~= finding_views(before).push(f@));
            assert(finding_views(out@) =~= top.take(t + 1).map_values(
                |hv: (Seq<char>, nat)| repetition_finding(hv.0, hv.1),
            ));
        }
        t += 1;
    }
    assert(top.take(t as int) =~= top);
    out
}

/// The sentences of a text: pieces between `.`, `!`, `?` and line feeds,
/// trimmed, the empty ones dropped.
pub open spec fn sentences(text: Seq<char>) -> Seq<Seq<char>> {
    nonempty(split_all(text, Sep::SentenceEnd).map_values(|p: Seq<char>| trim(p)))
}

/// A word with surrounding non-letters removed, lower-cased.
pub open spec fn clean_word(w: Seq<char>) -> Seq<char> {
    lowercase(strip(w, Sep::NonAlphabetic))
}

/// A cleaned word that reads as an adverb (`-mente`, `-ly`, over five bytes).
pub open spec fn is_adverb(lw: Seq<char>) -> bool {
    utf8_len(lw) > 5 && (ends_with(lw, "mente"@) || ends_with(lw, "ly"@))
}

/// How many words of the list read as adverbs.
pub open spec fn adverb_count(ws: Seq<Seq<char>>) -> nat
    decreases ws.len(),
{
    if ws.len() == 0 {
        0
    } else {
        adverb_count(ws.drop_last()) + if is_adverb(clean_word(ws.last())) {
            1nat
        } else {
            0nat
        }
    }
}

/// Copular and auxiliary verb forms that open a passive construction.
pub open spec fn auxiliaries() -> Seq<Seq<char>> {
    seq![
        "es"@, "son"@, "fue"@, "fueron"@, "era"@, "eran"@, "será"@, "serán"@, "sido"@, "is"@,
        "are"@, "was"@, "were"@, "been"@, "be"@,
    ]
}

/// A cleaned word that reads as a regular past participle.
pub open spec fn is_participle(w: Seq<char>) -> bool {
    utf8_len(w) > 4 && (ends_with(w, "ado"@) || ends_with(w, "ido"@) || ends_with(w, "ada"@)
        || ends_with(w, "idas"@) || ends_with(w, "ed"@) || ends_with(w, "en"@))
}

/// Heuristic passive voice: an auxiliary followed, within the next two
/// words, by a regular participle.
pub open spec fn passive(sentence: Seq<char>) -> bool {
    let ws = fields(sentence, Sep::Whitespace).map_values(|w: Seq<char>| clean_word(w));
    exists|i: int, j: int|
        0 <= i < j < ws.len() && j <= i + 2 && auxiliaries().contains(#[trigger] ws[i])
            && is_participle(#[trigger] ws[j])
}

/// At most `max` characters of `s`, marked with an ellipsis when cut.
pub open spec fn truncated(s: Seq<char>, max: nat) -> Seq<char> {
    if s.len() > max {
        s.take(max as int) + "…"@
    } else {
        s
    }
}

/// A style finding with the given title and detail, quoting the sentence.
pub open spec fn style_finding(title: Seq<char>, detail: Seq<char>, sentence: Seq<char>) -> FindingView {
    FindingView {
        validator: "style"@,
        severity: Severity::Info,
        title: title,
        detail: detail,
        excerpt: Some(truncated(sentence, 160)),
        suggestion: None,
    }
}

/// The style findings of one sentence: over forty words, three or more
/// adverbs, a passive construction.
pub open spec fn sentence_findings(s: Seq<char>) -> Seq<FindingView> {
    let ws = fields(s, Sep::Whitespace);
    let a: Seq<FindingView> = if ws.len() > 40 {
        seq![
            style_finding(
                "Oración muy larga ("@ + decimal(ws.len()) + " palabras)"@,
                "Las oraciones largas pueden cansar al lector; evaluá dividirla."@,
                s,
            ),
        ]
    } else {
        Seq::empty()
    };
    let n = adverb_count(ws);
    let b: Seq<FindingView> = if n >= 3 {
        seq![
            style_finding(
                "Acumulación de adverbios ("@ + decimal(n) + ")"@,
                "Varios adverbios en una oración suelen debilitar la prosa."@,
                s,
            ),
        ]
    } else {
        Seq::empty()
    };
    let c: Seq<FindingView> = if passive(s) {
        seq![
            style_finding("Posible voz pasiva"@, "La voz activa suele ser más directa."@, s),
        ]
    } else {
        Seq::empty()
    };
    a + b + c
}

/// Findings of the sentences in order, appended to `acc`, stopping after
/// the sentence that brings the count to twelve or more.
pub open spec fn style_from(sents: Seq<Seq<char>>, acc: Seq<FindingView>) -> Seq<FindingView>
    decreases sents.len(),
{
    if sents.len() == 0 {
        acc
    } else {
        let a2 = acc + sentence_findings(sents[0]);
        if a2.len() >= 12 {
            a2
        } else {
            style_from(sents.drop_first(), a2)
        }
    }
}

/// The style findings of a text, at most twelve.
pub open spec fn style_findings(text: Seq<char>) -> Seq<FindingView> {
    let r = style_from(sentences(text), Seq::empty());
    if r.len() > 12 {
        r.take(12)
    } else {
        r
    }
}

/// Split a text into trimmed, non-empty sentences.
pub fn split_sentences(text: &str) -> (out: Vec<Vec<char>>)
    ensures
        views(out@) == sentences(text@),
{
    let v = chars_of(text);
    let parts = split_all_exec(&v, Sep::SentenceEnd);
    let ghost trimmed = split_all(text@, Sep::SentenceEnd).map_values(|p: Seq<char>| trim(p));
    let mut out: Vec<Vec<char>> = Vec::new();
    let mut i: usize = 0;
    while i < parts.len()
        invariant
            i <= parts@.len(),
            views(parts@) == split_all(text@, Sep::SentenceEnd),
            trimmed == split_all(text@, Sep::SentenceEnd).map_values(|p: Seq<char>| trim(p)),
            views(out@) == nonempty(trimmed.take(i as int)),
        decreases parts@.len() - i,
    {
        let t = trim_chars(&parts[i]);
        proof {
            assert(views(parts@)[i as int] == parts@[i as int]@);
            assert(trimmed[i as int] == t@);
            assert(trimmed.take(i + 1).drop_last() =~= trimmed.take(i as int));
            assert(trimmed.take(i + 1).last() == t@);
        }
        if t.len() > 0 {
            let ghost before = views(out@);
            out.push(t);
            assert(views(out@) =~= before.push(t@));
        }
        i += 1;
    }
    assert(trimmed.take(parts@.len() as int) =~= trimmed);
    out
}

/// A word with surrounding non-letters removed, lower-cased.
fn clean_word_exec(w: &Vec<char>) -> (r: Vec<char>)
    ensures
        r@ == clean_word(w@),
{
    let stripped = strip_exec(w, Sep::NonAlphabetic);
    let s = string_of(&stripped);
    chars_of(to_lowercase(s.as_str()).as_str())
}

/// Whether `v` ends with the characters of `suffix`.
fn ends_with_str(v: &Vec<char>, suffix: &str) -> (r: bool)
    ensures
        r == ends_with(v@, suffix@),
{
    let p = chars_of(suffix);
    ends_with_exec(v, &p)
}

/// Count the words that read as adverbs.
fn count_adverbs(ws: &Vec<Vec<char>>) -> (n: usize)
    ensures
        n == adverb_count(views(ws@)),
{
    let mut n: usize = 0;
    let mut i: usize = 0;
    while i < ws.len()
        invariant
            i <= ws@.len(),
            n <= i,
            n == adverb_count(views(ws@).take(i as int)),
        decreases ws@.len() - i,
    {
        let lw = clean_word_exec(&ws[i]);
        proof {
            assert(views(ws@).take(i + 1).drop_last() =~= views(ws@).take(i as int));
            assert(views(ws@).take(i + 1).last() == ws@[i as int]@);
        }
        if utf8_len_exec(&lw) > 5 && (ends_with_str(&lw, "mente") || ends_with_str(&lw, "ly")) {
            n += 1;
        }
        i += 1;
    }
    assert(views(ws@).take(ws@.len() as int) =~= views(ws@));
    n
}

/// Whether `w` is one of the auxiliaries.
fn is_auxiliary(w: &Vec<char>) -> (r: bool)
    ensures
        r == auxiliaries().contains(w@),
{
    let list = [
        "es", "son", "fue", "fueron", "era", "eran", "será", "serán", "sido", "is", "are", "was",
        "were", "been", "be",
    ];
    let ghost names = list@.map_values(|x: &str| x@);
    assert(names =~= auxiliaries());
    let mut i: usize = 0;
    while i < list.len()
        invariant
            i <= list@.len(),
            names == list@.map_values(|x: &str| x@),
            names == auxiliaries(),
            forall|j: int| 0 <= j < i ==> names[j] != w@,
        decreases list@.len() - i,
    {
        let cand = chars_of(list[i]);
        if chars_eq(&cand, w) {
            assert(names[i as int] == w@);
            return true;
        }
        i += 1;
    }
    proof {
        if auxiliaries().contains(w@) {
            let j = choose|j: int| 0 <= j < auxiliaries().len() && auxiliaries()[j] == w@;
            assert(names[j] == w@);
        }
    }
    false
}

/// Whether a cleaned word reads as a regular past participle.
fn is_participle_exec(w: &Vec<char>) -> (r: bool)
    ensures
        r == is_participle(w@),
{
    utf8_len_exec(w) > 4 && (ends_with_str(w, "ado") || ends_with_str(w, "ido") || ends_with_str(
        w,
        "ada",
    ) || ends_with_str(w, "idas") || ends_with_str(w, "ed") || ends_with_str(w, "en"))
}

/// Heuristic passive voice (see `passive`). Irregular participles are
/// missed on purpose, to keep false positives low.
pub fn looks_passive(sentence: &Vec<char>) -> (r: bool)
    ensures
        r == passive(sentence@),
{
    let raw = fields_exec(sentence, Sep::Whitespace);
    let mut ws: Vec<Vec<char>> = Vec::new();
    let mut k: usize = 0;
    let ghost cleaned = fields(sentence@, Sep::Whitespace).map_values(|w: Seq<char>| clean_word(w));
    while k < raw.len()
        invariant
            k <= raw@.len(),
            views(raw@) == fields(sentence@, Sep::Whitespace),
            cleaned == fields(sentence@, Sep::Whitespace).map_values(|w: Seq<char>| clean_word(w)),
            views(ws@) == cleaned.take(k as int),
        decreases raw@.len() - k,
    {
        let c = clean_word_exec(&raw[k]);
        let ghost before = views(ws@);
        ws.push(c);
        proof {
            assert(views(raw@)[k as int] == raw@[k as int]@);
            assert(cleaned[k as int] == clean_word(raw@[k as int]@));
            assert(views(ws@) =~= before.push(c@));
            assert(views(ws@) =~= cleaned.take(k + 1));
        }
        k += 1;
    }
    assert(cleaned.take(raw@.len() as int) =~= cleaned);
    let ghost wv = views(ws@);
    let mut i: usize = 0;
    while i < ws.len()
        invariant
            i <= ws@.len(),
            wv == views(ws@),
            wv == cleaned,
            cleaned == fields(sentence@, Sep::Whitespace).map_values(|w: Seq<char>| clean_word(w)),
            forall|a: int, b: int|
                0 <= a < i && a < b < wv.len() && b <= a + 2 ==> !(auxiliaries().contains(wv[a])
                    && is_participle(wv[b])),
        decreases ws@.len() - i,
    {
        if is_auxiliary(&ws[i]) {
            let mut j = i + 1;
            while j < ws.len() && j <= i + 2
                invariant
                    i < j <= i + 3,
                    i < ws@.len(),
                    wv == views(ws@),
                    wv == cleaned,
                    cleaned == fields(sentence@, Sep::Whitespace).map_values(
                        |w: Seq<char>| clean_word(w),
                    ),
                    auxiliaries().contains(wv[i as int]),
                    forall|b: int| i < b < j && b < wv.len() ==> !is_participle(wv[b]),
                decreases ws@.len() - j,
            {
                if is_participle_exec(&ws[j]) {
                    assert(wv[j as int] == ws@[j as int]@);
                    proof {
                        let pw = fields(sentence@, Sep::Whitespace).map_values(
                            |w: Seq<char>| clean_word(w),
                        );
                        assert(pw == wv);
                        assert(0 <= i < j < pw.len() && j <= i + 2 && auxiliaries().contains(
                            pw[i as int],
                        ) && is_participle(pw[j as int]));
                    }
                    return true;
                }
                assert(wv[j as int] == ws@[j as int]@);
                j += 1;
            }
        }
        assert(wv[i as int] == ws@[i as int]@);
        i += 1;
    }
    proof {
        let pw = fields(sentence@, Sep::Whitespace).map_values(|w: Seq<char>| clean_word(w));
        assert(pw == wv);
        if passive(sentence@) {
            let (a, b) = choose|a: int, b: int|
                0 <= a < b < pw.len() && b <= a + 2 && auxiliaries().contains(#[trigger] pw[a])
                    && is_participle(#[trigger] pw[b]);
            assert(!(auxiliaries().contains(wv[a]) && is_participle(wv[b])));
        }
    }
    false
}

/// At most `max` characters of `s`, with an ellipsis when cut.
pub fn truncate(s: &Vec<char>, max: usize) -> (r: String)
    ensures
        r@ == truncated(s@, max as nat),
{
    if s.len() > max {
        let t = slice_chars(s, 0, max);
        let mut out = string_of(&t);
        out.append("…");
        out
    } else {
        string_of(s)
    }
}

/// Build a style finding quoting the sentence.
fn make_style_finding(title: String, detail: &str, sentence: &Vec<char>) -> (f: Finding)
    ensures
        f@ == style_finding(title@, detail@, sentence@),
{
    Finding {
        validator: String::from_str(ValidatorKind::Style.as_str()),
        severity: Severity::Info,
        title,
        detail: String::from_str(detail),
        excerpt: Some(truncate(sentence, 160)),
        suggestion: None,
    }
}

/// The style findings of one sentence.
fn sentence_findings_exec(s: &Vec<char>) -> (out: Vec<Finding>)
    ensures
        finding_views(out@) == sentence_findings(s@),
{
    let words = fields_exec(s, Sep::Whitespace);
    let mut out: Vec<Finding> = Vec::new();
    if words.len() > 40 {
        let mut title = String::from_str("Oración muy larga (");
        push_decimal(&mut title, words.len() as u128);
        title.append(" palabras)");
        out.push(
            make_style_finding(
                title,
                "Las oraciones largas pueden cansar al lector; evaluá dividirla.",
                s,
            ),
        );
    }
    let ghost a = finding_views(out@);
    let n = count_adverbs(&words);
    if n >= 3 {
        let mut title = String::from_str("Acumulación de adverbios (");
        push_decimal(&mut title, n as u128);
        title.append(")");
        out.push(
            make_style_finding(title, "Varios adverbios en una oración suelen debilitar la prosa.", s),
        );
    }
    let ghost ab = finding_views(out@);
    if looks_passive(s) {
        out.push(
            make_style_finding(
                String::from_str("Posible voz pasiva"),
                "La voz activa suele ser más directa.",
                s,
            ),
        );
    }
    proof {
        let ws = fields(s@, Sep::Whitespace);
        assert(views(words@).len() == words@.len());
        if words.len() > 40 {
            assert(a.len() == 1);
        } else {
            assert(a =~= Seq::<FindingView>::empty());
        }
        assert(ab =~= a + (ab.subrange(a.len() as int, ab.len() as int)));
        assert(finding_views(out@) =~= a + ab.subrange(a.len() as int, ab.len() as int) + finding_views(
            out@,
        ).subrange(ab.len() as int, finding_views(out@).len() as int));
    }
    out
}

/// Detect style smells: very long sentences, adverb pile-ups (`-mente`,
/// `-ly`) and passive constructions; at most twelve findings.
pub fn detect_style_anomalies(text: &str) -> (out: Vec<Finding>)
    ensures
        finding_views(out@) == style_findings(text@),
{
    let sents = split_sentences(text);
    let ghost all = views(sents@);
    let mut out: Vec<Finding> = Vec::new();
    let mut i: usize = 0;
    assert(all.skip(0) =~= all);
    while i < sents.len()
        invariant_except_break
            finding_views(out@).len() < 12,
            style_from(all.skip(i as int), finding_views(out@)) == style_from(all, Seq::empty()),
        invariant
            i <= sents@.len(),
            all == views(sents@),
            all == sentences(text@),
        ensures
            style_from(all, Seq::empty()) == finding_views(out@),
        decreases sents@.len() - i,
    {
        let f = sentence_findings_exec(&sents[i]);
        let ghost before = finding_views(out@);
        let mut k: usize = 0;
        while k < f.len()
            invariant
                k <= f@.len(),
                finding_views(out@) == before + finding_views(f@).take(k as int),
            decreases f@.len() - k,
        {
            let ghost o = finding_views(out@);
            let fk = f[k].clone();
            out.push(fk);
            assert(finding_views(out@) =~= o.push(fk@));
            assert(finding_views(out@) =~= before + finding_views(f@).take(k + 1));
            k += 1;
        }
        proof {
            assert(finding_views(f@).take(f@.len() as int) =~= finding_views(f@));
            let rest = all.skip(i as int);
            assert(rest[0] == sents@[i as int]@);
            assert(rest.drop_first() =~= all.skip(i + 1));
            assert(finding_views(out@) == before + sentence_findings(rest[0]));
        }
        if out.len() >= 12 {
            break;
        }
        i += 1;
    }
    proof {
        if i == sents.len() {
            assert(all.skip(i as int).len() == 0);
        }
    }
    let mut r: Vec<Finding> = Vec::new();
    let mut t: usize = 0;
    while t < out.len() && t < 12
        invariant
            t <= out@.len(),
            t <= 12,
            finding_views(r@) == finding_views(out@).take(t as int),
        decreases out@.len() - t,
    {
        let ghost r0 = finding_views(r@);
        let ft = out[t].clone();
        r.push(ft);
        assert(finding_views(r@) =~= r0.push(ft@));
        assert(finding_views(r@) =~= finding_views(out@).take(t + 1));
        t += 1;
    }
    assert(finding_views(out@).take(t as int) =~= if finding_views(out@).len() > 12 {
        finding_views(out@).take(12)
    } else {
        finding_views(out@)
    });
    r
}

/// A word that may be a name: three or more letters, the first upper-case.
pub open spec fn is_candidate(w: Seq<char>) -> bool {
    w.len() >= 3 && uppercase(w[0]) && forall|i: int| 0 <= i < w.len() ==> alphabetic(#[trigger] w[i])
}

/// The lower-cased candidate names among the words, in order, repeats kept
/// (each word first loses its surrounding non-alphanumeric characters).
pub open spec fn candidate_words(ws: Seq<Seq<char>>) -> Seq<Seq<char>>
    decreases ws.len(),
{
    if ws.len() == 0 {
        Seq::empty()
    } else {
        let prev = candidate_words(ws.drop_last());
        let w = strip(ws.last(), Sep::NonAlphanumeric);
        if is_candidate(w) {
            prev.push(lowercase(w))
        } else {
            prev
        }
    }
}

/// A codex name covers a candidate when either contains the other.
pub open spec fn name_matches(n: Seq<char>, c: Seq<char>) -> bool {
    n == c || contains(n, c) || contains(c, n)
}

/// Some (lower-cased) codex name covers the candidate.
pub open spec fn covered_by(names: Seq<Seq<char>>, c: Seq<char>) -> bool {
    exists|i: int| 0 <= i < names.len() && name_matches(#[trigger] names[i], c)
}

/// `(candidates, covered)` over the distinct keys: a key is a candidate
/// when it recurs in `list`, covered when a name covers it.
pub open spec fn coverage_counts(keys: Seq<Seq<char>>, list: Seq<Seq<char>>, names: Seq<Seq<char>>) -> (
    nat,
    nat,
)
    decreases keys.len(),
{
    if keys.len() == 0 {
        (0, 0)
    } else {
        let (a, b) = coverage_counts(keys.drop_last(), list, names);
        let k = keys.last();
        if count_in(list, k) >= 2 {
            (a + 1, b + if covered_by(names, k) {
                1nat
            } else {
                0nat
            })
        } else {
            (a, b)
        }
    }
}

/// The recurring candidate names of a text and the codex names, lower-cased.
pub open spec fn coverage_of(text: Seq<char>, names: Seq<String>) -> (nat, nat) {
    let list = candidate_words(fields(text, Sep::Whitespace));
    let lc = names.map_values(|n: String| lowercase(n@));
    coverage_counts(distinct(list), list, lc)
}

/// The candidate count of `coverage_counts` over some keys is the number
/// of those keys that occur at least twice in the list.
proof fn lemma_candidates_recur(keys: Seq<Seq<char>>, list: Seq<Seq<char>>, names: Seq<Seq<char>>)
    ensures
        coverage_counts(keys, list, names).0 == keys.filter(|k: Seq<char>| count_in(list, k) >= 2).len(),
    decreases keys.len(),
{
    reveal_with_fuel(Seq::<Seq<char>>::filter, 1);
    if keys.len() > 0 {
        lemma_candidates_recur(keys.drop_last(), list, names);
    }
}

/// The covered count of `coverage_counts` over some keys is the number of
/// those keys that recur in the list and that a name covers.
proof fn lemma_covered_recur(keys: Seq<Seq<char>>, list: Seq<Seq<char>>, names: Seq<Seq<char>>)
    ensures
        coverage_counts(keys, list, names).1 == keys.filter(
            |k: Seq<char>| count_in(list, k) >= 2 && covered_by(names, k),
        ).len(),
    decreases keys.len(),
{
    reveal_with_fuel(Seq::<Seq<char>>::filter, 1);
    if keys.len() > 0 {
        lemma_covered_recur(keys.drop_last(), list, names);
    }
}

/// The covered candidates are the recurring capitalised words of the text
/// that a codex name (lower-cased) equals, contains or is contained in.
pub proof fn law_covered_candidates_are_named(text: Seq<char>, names: Seq<String>)
    ensures
        ({
            let list = candidate_words(fields(text, Sep::Whitespace));
            let lc = names.map_values(|n: String| lowercase(n@));
            coverage_of(text, names).1 == distinct(list).filter(
                |k: Seq<char>| count_in(list, k) >= 2 && covered_by(lc, k),
            ).len()
        }),
{
    let list = candidate_words(fields(text, Sep::Whitespace));
    let lc = names.map_values(|n: String| lowercase(n@));
    lemma_covered_recur(distinct(list), list, lc);
}

/// Only recurring words are candidate names: the number of candidates is
/// the number of distinct lower-cased capitalised words of the text that
/// occur at least twice, so a word seen once never counts.
pub proof fn law_only_recurring_words_are_candidates(text: Seq<char>, names: Seq<String>)
    ensures
        ({
            let list = candidate_words(fields(text, Sep::Whitespace));
            coverage_of(text, names).0 == distinct(list).filter(|k: Seq<char>| count_in(list, k) >= 2).len()
        }),
{
    let list = candidate_words(fields(text, Sep::Whitespace));
    let lc = names.map_values(|n: String| lowercase(n@));
    lemma_candidates_recur(distinct(list), list, lc);
}

/// How much of the text's apparent cast the codex describes.
#[derive(Debug, Clone, Copy, PartialEq, Eq)]
pub struct CoverageReport {
    /// Recurring capitalised names found in the text.
    pub candidates: usize,
    /// How many of them a codex entry covers.
    pub covered: usize,
}

impl CoverageReport {
    /// Sparse enough that character and plot validation will be
    /// unreliable: three or more candidates, under half of them covered.
    pub fn is_sparse(&self) -> (r: bool)
        ensures
            r == (self.candidates >= 3 && 2 * self.covered < self.candidates),
    {
        self.candidates >= 3 && (self.covered as u128) * 2 < self.candidates as u128
    }
}

/// Whether a word is a candidate name.
fn is_candidate_exec(w: &Vec<char>) -> (r: bool)
    ensures
        r == is_candidate(w@),
{
    if w.len() < 3 {
        return false;
    }
    if !is_uppercase(w[0]) {
        return false;
    }
    let mut i: usize = 0;
    while i < w.len()
        invariant
            i <= w@.len(),
            forall|j: int| 0 <= j < i ==> alphabetic(#[trigger] w@[j]),
        decreases w@.len() - i,
    {
        if !is_alphabetic(w[i]) {
            return false;
        }
        i += 1;
    }
    true
}

/// Whether some name covers the candidate.
fn covered_exec(names: &Vec<Vec<char>>, c: &Vec<char>) -> (r: bool)
    ensures
        r == covered_by(views(names@), c@),
{
    let mut i: usize = 0;
    while i < names.len()
        invariant
            i <= names@.len(),
            forall|j: int| 0 <= j < i ==> !name_matches(#[trigger] views(names@)[j], c@),
        decreases names@.len() - i,
    {
        let n = &names[i];
        assert(views(names@)[i as int] == n@);
        if chars_eq(n, c) || contains_exec(n, c) || contains_exec(c, n) {
            return true;
        }
        i += 1;
    }
    false
}

/// Estimate how much of the text's apparent cast the codex describes:
/// recurring capitalised words are candidate names, and a candidate is
/// covered when a codex name matches it (case-insensitively, either
/// containing the other).
pub fn codex_coverage(text: &str, codex_names: &[String]) -> (r: CoverageReport)
    ensures
        (r.candidates as nat, r.covered as nat) == coverage_of(text@, codex_names@),
{
    let v = chars_of(text);
    let words = fields_exec(&v, Sep::Whitespace);
    let mut list: Vec<Vec<char>> = Vec::new();
    let mut i: usize = 0;
    while i < words.len()
        invariant
            i <= words@.len(),
            views(words@) == fields(text@, Sep::Whitespace),
            views(list@) == candidate_words(views(words@).take(i as int)),
        decreases words@.len() - i,
    {
        let w = strip_exec(&words[i], Sep::NonAlphanumeric);
        proof {
            assert(views(words@).take(i + 1).drop_last() =~= views(words@).take(i as int));
            assert(views(words@).take(i + 1).last() == words@[i as int]@);
        }
        if is_candidate_exec(&w) {
            let ws = string_of(&w);
            let low = chars_of(to_lowercase(ws.as_str()).as_str());
            let ghost before = views(list@);
            list.push(low);
            assert(views(list@) =~= before.push(low@));
        }
        i += 1;
    }
    assert(views(words@).take(words@.len() as int) =~= views(words@));
    let mut names: Vec<Vec<char>> = Vec::new();
    let mut j: usize = 0;
    let ghost lc = codex_names@.map_values(|n: String| lowercase(n@));
    while j < codex_names.len()
        invariant
            j <= codex_names@.len(),
            lc == codex_names@.map_values(|n: String| lowercase(n@)),
            views(names@) == lc.take(j as int),
        decreases codex_names@.len() - j,
    {
        let low = chars_of(to_lowercase(codex_names[j].as_str()).as_str());
        let ghost before = views(names@);
        names.push(low);
        assert(lc[j as int] == lowercase(codex_names@[j as int]@));
        assert(views(names@) =~= before.push(low@));
        assert(views(names@) =~= lc.take(j + 1));
        j += 1;
    }
    assert(lc.take(codex_names@.len() as int) =~= lc);
    let (keys, counts) = tally(&list);
    let ghost lv = views(list@);
    let mut candidates: usize = 0;
    let mut covered: usize = 0;
    let mut k: usize = 0;
    while k < keys.len()
        invariant
            k <= keys@.len(),
            counts@.len() == keys@.len(),
            views(keys@) == distinct(lv),
            views(names@) == lc,
            forall|t: int| 0 <= t < counts@.len() ==> counts@[t] == count_in(lv, #[trigger] keys@[t]@),
            (candidates as nat, covered as nat) == coverage_counts(views(keys@).take(k as int), lv, lc),
            covered <= candidates <= k,
        decreases keys@.len() - k,
    {
        proof {
            assert(views(keys@).take(k + 1).drop_last() =~= views(keys@).take(k as int));
            assert(views(keys@).take(k + 1).last() == keys@[k as int]@);
        }
        if counts[k] >= 2 {
            candidates += 1;
            if covered_exec(&names, &keys[k]) {
                covered += 1;
            }
        }
        k += 1;
    }
    assert(views(keys@).take(keys@.len() as int) =~= views(keys@));
    CoverageReport { candidates, covered }
}

/// The next step of a validation run.
#[derive(Debug)]
pub enum ValidationStep {
    /// A local validator ran; these are its findings.
    Done(Vec<Finding>),
    /// A model-backed validator: send these messages and read the answer
    /// with `findings_from_raw`.
    Ask(Vec<ChatMessage>),
    /// The run cannot proceed.
    Refused(AppError),
}

/// Decide a validation run: local validators run here whatever the AI
/// state; model-backed ones need an available AI and get their prompt.
pub fn plan_validation(kind: ValidatorKind, input: &ValidationInput, ai_available: bool) -> (r:
    ValidationStep)
    ensures
        kind == ValidatorKind::Repetition ==> (r matches ValidationStep::Done(f) && finding_views(f@)
            == repetition_findings(input.text@)),
        kind == ValidatorKind::Style ==> (r matches ValidationStep::Done(f) && finding_views(f@)
            == style_findings(input.text@)),
        !kind_is_local(kind) && !ai_available ==> (r matches ValidationStep::Refused(e) && e
            == AppError::Unsupported(e->Unsupported_0) && e->Unsupported_0@
            == "las funciones de IA no están activas"@),
        !kind_is_local(kind) && ai_available ==> (r matches ValidationStep::Ask(m) && m@.len() == 2
            && m@[0].role == Role::System && m@[0].content@ == validator_system(
            kind,
            input.codex_block@,
            input.anchor_text@,
        ) && m@[1].role == Role::User && m@[1].content@ == input.text@),
{
    match kind {
        ValidatorKind::Repetition => ValidationStep::Done(detect_repetitions(input.text.as_str())),
        ValidatorKind::Style => ValidationStep::Done(detect_style_anomalies(input.text.as_str())),
        _ => {
            if !ai_available {
                return ValidationStep::Refused(
                    AppError::Unsupported(String::from_str("las funciones de IA no están activas")),
                );
            }
            match messages_for(kind, input) {
                Ok(m) => ValidationStep::Ask(m),
                Err(e) => ValidationStep::Refused(e),
            }
        },
    }
}

/// Runs the manuscript validators.
pub trait AIValidatorService {
    /// Run one validator over a document. Local validators always run; AI
    /// validators need `available()`.
    fn run(&self, kind: ValidatorKind, input: &ValidationInput) -> AppResult<Vec<Finding>>;

    /// Whether the AI-backed validators can run.
    fn available(&self) -> bool;
}

} // verus!
