//! Variables in task commands: `$(NAME)` and `${NAME}` are replaced by the
//! variable's value, and a leading `~` by the home directory.

use crate::text::{
    append_chars, chars_of, find_first, find_text, lemma_find_first, slice_of,
    starts_with_text, text_of, texts_of,
};
use crate::textmap::{value_of, with_value, TextEntry, TextMap};
use vstd::prelude::*;
use vstd::string::StringExecFns;

verus! {

/// Why a text could not be expanded, or a context not be made.
#[derive(Debug, Clone)]
pub enum VarError {
    /// A definition without `=`.
    InvalidDefinition { definition: String },
    /// A reference to a variable that has no value.
    Undefined { reference: String },
    /// A reference that is not closed.
    Unclosed { marker: String },
}

/// The mathematical content of a [`VarError`].
pub enum VarFault {
    InvalidDefinition { definition: Seq<char> },
    Undefined { reference: Seq<char> },
    Unclosed { marker: Seq<char> },
}

impl View for VarError {
    type V = VarFault;

    open spec fn view(&self) -> VarFault {
        match self {
            VarError::InvalidDefinition { definition } => VarFault::InvalidDefinition {
                definition: definition@,
            },
            VarError::Undefined { reference } => VarFault::Undefined { reference: reference@ },
            VarError::Unclosed { marker } => VarFault::Unclosed { marker: marker@ },
        }
    }
}

/// The view of what an expansion gave.
pub open spec fn outcome_of(r: Result<String, VarError>) -> Result<Seq<char>, VarFault> {
    match r {
        Ok(text) => Ok(text@),
        Err(e) => Err(e@),
    }
}

/// The text from `from` on with every reference between the two markers
/// replaced by its variable's value, left to right; values are not expanded
/// again. A reference without its closing marker, or to a variable without
/// value, is a fault.
pub open spec fn replaced_from(
    vars: Seq<(Seq<char>, Seq<char>)>,
    input: Seq<char>,
    open: Seq<char>,
    close: Seq<char>,
    from: int,
) -> Result<Seq<char>, VarFault>
    decreases input.len() - from,
{
    let start = find_first(input, open, from);
    if from < 0 || from > input.len() {
        Ok(Seq::empty())
    } else if start < 0 {
        Ok(input.subrange(from, input.len() as int))
    } else {
        let name_from = start + open.len();
        let end = find_first(input, close, name_from);
        if end < 0 {
            Err(VarFault::Unclosed { marker: open })
        } else {
            let name = input.subrange(name_from, end);
            match value_of(vars, name) {
                None => Err(VarFault::Undefined { reference: open + name + close }),
                Some(value) => {
                    let next = end + close.len();
                    if next <= from || next > input.len() {
                        Ok(input.subrange(from, input.len() as int))
                    } else {
                        match replaced_from(vars, input, open, close, next) {
                            Ok(rest) => Ok(input.subrange(from, start) + value + rest),
                            Err(fault) => Err(fault),
                        }
                    }
                },
            }
        }
    }
}

/// The text with every reference between the two markers replaced.
pub open spec fn replaced(
    vars: Seq<(Seq<char>, Seq<char>)>,
    input: Seq<char>,
    open: Seq<char>,
    close: Seq<char>,
) -> Result<Seq<char>, VarFault> {
    replaced_from(vars, input, open, close, 0)
}

/// The text holds the marker.
pub open spec fn has_marker(input: Seq<char>, open: Seq<char>) -> bool {
    find_first(input, open, 0) >= 0
}

/// The text after at most `rounds` rounds of replacement. Each round
/// replaces the `$(NAME)` references, then the `${NAME}` references; the
/// rounds end before their number is spent when a round finds nothing to
/// replace.
pub open spec fn expanded(vars: Seq<(Seq<char>, Seq<char>)>, text: Seq<char>, rounds: nat) -> Result<
    Seq<char>,
    VarFault,
>
    decreases rounds,
{
    if rounds == 0 {
        Ok(text)
    } else {
        match replaced(vars, text, "$("@, ")"@) {
            Err(fault) => Err(fault),
            Ok(first) => match replaced(vars, first, "${"@, "}"@) {
                Err(fault) => Err(fault),
                Ok(second) => if has_marker(text, "$("@) || has_marker(first, "${"@) {
                    expanded(vars, second, (rounds - 1) as nat)
                } else {
                    Ok(second)
                },
            },
        }
    }
}

/// The text with a leading `~` replaced by the value of `HOME`, where the
/// text is `~` or begins with `~/` and `HOME` has a value.
pub open spec fn tilde_expanded(vars: Seq<(Seq<char>, Seq<char>)>, input: Seq<char>) -> Seq<char> {
    if (input == "~"@ || "~/"@.is_prefix_of(input)) && value_of(vars, "HOME"@) is Some {
        value_of(vars, "HOME"@)->0 + input.subrange(1, input.len() as int)
    } else {
        input
    }
}

/// The text with its leading `~` and its variable references expanded, in
/// at most ten rounds.
pub open spec fn substituted(vars: Seq<(Seq<char>, Seq<char>)>, input: Seq<char>) -> Result<
    Seq<char>,
    VarFault,
> {
    expanded(vars, tilde_expanded(vars, input), 10)
}

/// The pairs of an environment, as texts.
pub open spec fn pairs_of(entries: Seq<TextEntry>) -> Seq<(Seq<char>, Seq<char>)> {
    Seq::new(entries.len(), |i: int| (entries[i].key@, entries[i].value@))
}

/// The variables after every pair was set, one after the other.
pub open spec fn with_all(
    vars: Seq<(Seq<char>, Seq<char>)>,
    pairs: Seq<(Seq<char>, Seq<char>)>,
) -> Seq<(Seq<char>, Seq<char>)>
    decreases pairs.len(),
{
    if pairs.len() == 0 {
        vars
    } else {
        with_value(with_all(vars, pairs.drop_last()), pairs.last().0, pairs.last().1)
    }
}

/// The variables with one more set, where there is a value for it.
pub open spec fn with_optional(
    vars: Seq<(Seq<char>, Seq<char>)>,
    key: Seq<char>,
    value: Option<Seq<char>>,
) -> Seq<(Seq<char>, Seq<char>)> {
    match value {
        Some(v) => with_value(vars, key, v),
        None => vars,
    }
}

/// The variable that a definition `NAME=VALUE` sets; the name ends at the
/// first `=`. A definition without `=` sets none.
pub open spec fn definition_of(definition: Seq<char>) -> Option<(Seq<char>, Seq<char>)> {
    let at = crate::text::piece_end(definition, '=', 0);
    if at < definition.len() {
        Some((definition.subrange(0, at), definition.subrange(at + 1, definition.len() as int)))
    } else {
        None
    }
}

/// The variables after the definitions were applied, one after the other;
/// the first definition without `=` is a fault.
pub open spec fn with_definitions(
    vars: Seq<(Seq<char>, Seq<char>)>,
    definitions: Seq<Seq<char>>,
) -> Result<Seq<(Seq<char>, Seq<char>)>, VarFault>
    decreases definitions.len(),
{
    if definitions.len() == 0 {
        Ok(vars)
    } else {
        match with_definitions(vars, definitions.drop_last()) {
            Err(fault) => Err(fault),
            Ok(before) => match definition_of(definitions.last()) {
                Some((name, value)) => Ok(with_value(before, name, value)),
                None => Err(VarFault::InvalidDefinition { definition: definitions.last() }),
            },
        }
    }
}

/// The variables of a context: the environment, then `CWD` where the
/// working directory is known, `PROJECT_DIR`, `HOME` where the home
/// directory is known, and last the user's definitions. What comes later
/// takes the place of what came before under the same name.
pub open spec fn context_variables(
    environment: Seq<(Seq<char>, Seq<char>)>,
    cwd: Option<Seq<char>>,
    project_dir: Seq<char>,
    home: Option<Seq<char>>,
    definitions: Seq<Seq<char>>,
) -> Result<Seq<(Seq<char>, Seq<char>)>, VarFault> {
    let from_env = with_all(Seq::empty(), environment);
    let with_cwd = with_optional(from_env, "CWD"@, cwd);
    let with_project = with_value(with_cwd, "PROJECT_DIR"@, project_dir);
    let with_home = with_optional(with_project, "HOME"@, home);
    with_definitions(with_home, definitions)
}

/// A fault among the first definitions is the fault of all of them.
pub proof fn lemma_definition_fault(
    vars: Seq<(Seq<char>, Seq<char>)>,
    definitions: Seq<Seq<char>>,
    k: int,
)
    requires
        0 <= k < definitions.len(),
        with_definitions(vars, definitions.take(k + 1)) is Err,
    ensures
        with_definitions(vars, definitions) == with_definitions(vars, definitions.take(k + 1)),
    decreases definitions.len() - k,
{
    if k + 1 < definitions.len() {
        assert(definitions.take(k + 2).drop_last() =~= definitions.take(k + 1));
        lemma_definition_fault(vars, definitions, k + 1);
    } else {
        assert(definitions.take(k + 1) =~= definitions);
    }
}

/// The variables that can stand in task commands.
#[derive(Debug, Clone)]
pub struct VarContext {
    vars: TextMap,
}

impl View for VarContext {
    type V = Seq<(Seq<char>, Seq<char>)>;

    closed spec fn view(&self) -> Seq<(Seq<char>, Seq<char>)> {
        self.vars@
    }
}

impl VarError {
    /// The message for the user.
    pub fn message(&self) -> (text: String)
        ensures
            text@ == (match self@ {
                VarFault::InvalidDefinition { definition } => "Invalid variable definition '"@
                    + definition + "'. Expected format: VAR=VALUE"@,
                VarFault::Undefined { reference } => "Undefined variable: "@ + reference,
                VarFault::Unclosed { marker } => "Unclosed variable reference: "@ + marker,
            }),
    {
        match self {
            VarError::InvalidDefinition { definition } => {
                "Invalid variable definition '".to_owned().concat(definition.as_str()).concat(
                    "'. Expected format: VAR=VALUE",
                )
            },
            VarError::Undefined { reference } => {
                "Undefined variable: ".to_owned().concat(reference.as_str())
            },
            VarError::Unclosed { marker } => {
                "Unclosed variable reference: ".to_owned().concat(marker.as_str())
            },
        }
    }
}

impl VarContext {
    /// The context's invariant: no variable stands in it twice.
    pub closed spec fn wf(&self) -> bool {
        self.vars.wf()
    }

    /// Replaces every reference between the two markers by its variable's
    /// value, and says in `changed` whether it replaced any.
    fn substitute_pattern(
        &self,
        input: &str,
        start_marker: &str,
        end_marker: &str,
        changed: &mut bool,
    ) -> (out: Result<String, VarError>)
        requires
            start_marker@.len() > 0,
        ensures
            outcome_of(out) == replaced(self@, input@, start_marker@, end_marker@),
            out is Ok ==> *final(changed) == (*old(changed) || has_marker(
                input@,
                start_marker@,
            )),
    {
        let chars = chars_of(input);
        let open = chars_of(start_marker);
        let close = chars_of(end_marker);
        let ghost vars = self@;
        let ghost target = replaced(vars, input@, open@, close@);
        let mut result: Vec<char> = Vec::new();
        let mut from: usize = 0;
        loop
            invariant_except_break
                from <= chars.len(),
                chars@ == input@,
                open@ == start_marker@,
                close@ == end_marker@,
                open@.len() > 0,
                vars == self@,
                target == replaced(vars, input@, open@, close@),
                target == (match replaced_from(vars, chars@, open@, close@, from as int) {
                    Ok(rest) => Ok(result@ + rest),
                    Err(fault) => Err(fault),
                }),
                *changed == (*old(changed) || (from > 0)),
                from == 0 || has_marker(input@, open@),
            ensures
                from <= chars.len(),
                chars@ == input@,
                open@ == start_marker@,
                target == replaced(vars, input@, open@, close@),
                target == Ok::<Seq<char>, VarFault>(
                    result@ + chars@.subrange(from as int, chars.len() as int),
                ),
                *changed == (*old(changed) || has_marker(input@, open@)),
            decreases chars.len() - from,
        {
            match find_text(&chars, &open, from) {
                None => {
                    proof {
                        if from == 0 {
                            assert(!has_marker(input@, open@));
                        }
                    }
                    break ;
                },
                Some(start) => {
                    proof {
                        lemma_find_first(chars@, open@, from as int);
                        if from == 0 {
                            assert(has_marker(input@, open@));
                        }
                    }
                    let name_from = start + open.len();
                    match find_text(&chars, &close, name_from) {
                        None => {
                            return Err(VarError::Unclosed { marker: start_marker.to_owned() });
                        },
                        Some(end) => {
                            proof {
                                lemma_find_first(chars@, close@, name_from as int);
                            }
                            let name = text_of(&slice_of(&chars, name_from, end));
                            match self.vars.get(name.as_str()) {
                                None => {
                                    return Err(
                                        VarError::Undefined {
                                            reference: start_marker.to_owned().concat(
                                                name.as_str(),
                                            ).concat(end_marker),
                                        },
                                    );
                                },
                                Some(value) => {
                                    let ghost before = result@;
                                    let head = slice_of(&chars, from, start);
                                    append_chars(&mut result, &head);
                                    let value_chars = chars_of(value.as_str());
                                    append_chars(&mut result, &value_chars);
                                    proof {
                                        let next = end + close@.len();
                                        let rest = replaced_from(
                                            vars,
                                            chars@,
                                            open@,
                                            close@,
                                            next,
                                        );
                                        if rest is Ok {
                                            assert(before + (chars@.subrange(
                                                from as int,
                                                start as int,
                                            ) + value@ + rest->Ok_0) =~= result@ + rest->Ok_0);
                                        }
                                    }
                                    *changed = true;
                                    from = end + close.len();
                                },
                            }
                        },
                    }
                },
            }
        }
        let tail = slice_of(&chars, from, chars.len());
        append_chars(&mut result, &tail);
        Ok(text_of(&result))
    }

    /// Makes a context from the environment's variables, the working
    /// directory, the project's directory, the home directory and the
    /// user's definitions of the form `NAME=VALUE`.
    pub fn new(
        environment: &Vec<TextEntry>,
        cwd: &Option<String>,
        project_dir: &str,
        home: &Option<String>,
        user_defines: &Vec<String>,
    ) -> (made: Result<VarContext, VarError>)
        ensures
            match made {
                Ok(context) => context.wf() && Ok::<Seq<(Seq<char>, Seq<char>)>, VarFault>(
                    context@,
                ) == context_variables(
                    pairs_of(environment@),
                    crate::state::opt_text(*cwd),
                    project_dir@,
                    crate::state::opt_text(*home),
                    texts_of(user_defines@),
                ),
                Err(e) => Err::<Seq<(Seq<char>, Seq<char>)>, VarFault>(e@) == context_variables(
                    pairs_of(environment@),
                    crate::state::opt_text(*cwd),
                    project_dir@,
                    crate::state::opt_text(*home),
                    texts_of(user_defines@),
                ),
            },
    {
        let ghost env = pairs_of(environment@);
        let ghost defs = texts_of(user_defines@);
        let mut vars = TextMap::new();
        let mut i: usize = 0;
        while i < environment.len()
            invariant
                i <= environment.len(),
                env == pairs_of(environment@),
                vars.wf(),
                vars@ == with_all(Seq::empty(), env.take(i as int)),
            decreases environment.len() - i,
        {
            proof {
                let next = env.take(i + 1);
                assert(next.drop_last() =~= env.take(i as int));
                assert(next.last() == env[i as int]);
            }
            vars.insert(environment[i].key.clone(), environment[i].value.clone());
            i = i + 1;
        }
        proof {
            assert(env.take(i as int) =~= env);
        }
        match cwd {
            Some(dir) => {
                vars.insert("CWD".to_owned(), dir.clone());
            },
            None => {},
        }
        vars.insert("PROJECT_DIR".to_owned(), project_dir.to_owned());
        match home {
            Some(dir) => {
                vars.insert("HOME".to_owned(), dir.clone());
            },
            None => {},
        }
        let ghost base = vars@;
        let ghost goal = context_variables(
            env,
            crate::state::opt_text(*cwd),
            project_dir@,
            crate::state::opt_text(*home),
            defs,
        );
        assert(goal == with_definitions(base, defs));
        let mut k: usize = 0;
        while k < user_defines.len()
            invariant
                k <= user_defines.len(),
                defs == texts_of(user_defines@),
                goal == with_definitions(base, defs),
                goal == context_variables(
                    pairs_of(environment@),
                    crate::state::opt_text(*cwd),
                    project_dir@,
                    crate::state::opt_text(*home),
                    texts_of(user_defines@),
                ),
                vars.wf(),
                Ok::<Seq<(Seq<char>, Seq<char>)>, VarFault>(vars@) == with_definitions(
                    base,
                    defs.take(k as int),
                ),
            decreases user_defines.len() - k,
        {
            proof {
                let next = defs.take(k + 1);
                assert(next.drop_last() =~= defs.take(k as int));
                assert(next.last() == user_defines[k as int]@);
            }
            let chars = chars_of(user_defines[k].as_str());
            let at = crate::text::find_char(&chars, '=', 0);
            if at == chars.len() {
                proof {
                    lemma_definition_fault(base, defs, k as int);
                }
                return Err(VarError::InvalidDefinition { definition: user_defines[k].clone() });
            }
            let name = text_of(&slice_of(&chars, 0, at));
            let value = text_of(&slice_of(&chars, at + 1, chars.len()));
            vars.insert(name, value);
            k = k + 1;
        }
        proof {
            assert(defs.take(k as int) =~= defs);
        }
        Ok(VarContext { vars })
    }

    /// The value of a variable, if it has one.
    pub fn get(&self, key: &str) -> (value: Option<&String>)
        ensures
            match value {
                Some(v) => value_of(self@, key@) == Some(v@),
                None => value_of(self@, key@) is None,
            },
    {
        self.vars.get(key)
    }

    /// Expands a text: a leading `~` becomes the value of `HOME`, then the
    /// references `$(NAME)` and `${NAME}` are replaced by the values of
    /// their variables, round after round until a round replaces nothing,
    /// ten rounds at most. A reference to a variable without value, or one
    /// that is not closed, is an error.
    pub fn substitute(&self, input: &str) -> (out: Result<String, VarError>)
        ensures
            outcome_of(out) == substituted(self@, input@),
    {
        let ghost vars = self@;
        let chars = chars_of(input);
        let tilde = chars_of("~");
        let tilde_slash = chars_of("~/");
        proof {
            reveal_strlit("~");
            reveal_strlit("~/");
            assert(tilde@.is_prefix_of(chars@) && chars@.len() == 1 <==> chars@ == "~"@) by {
                if tilde@.is_prefix_of(chars@) && chars@.len() == 1 {
                    assert(chars@ =~= "~"@);
                }
            }
        }
        let is_home = (chars.len() == 1 && starts_with_text(&chars, &tilde)) || starts_with_text(
            &chars,
            &tilde_slash,
        );
        let mut result: String = input.to_owned();
        if is_home {
            match self.vars.get("HOME") {
                Some(home) => {
                    let rest = slice_of(&chars, 1, chars.len());
                    result = home.clone().concat(text_of(&rest).as_str());
                },
                None => {},
            }
        }
        assert(result@ == tilde_expanded(vars, input@));
        let mut changed = true;
        let mut iteration: usize = 0;
        let ghost target = substituted(vars, input@);
        while changed && iteration < 10
            invariant
                iteration <= 10,
                vars == self@,
                target == substituted(vars, input@),
                changed ==> target == expanded(vars, result@, (10 - iteration) as nat),
                !changed ==> target == Ok::<Seq<char>, VarFault>(result@),
            decreases 10 - iteration,
        {
            let ghost round_start = result@;
            changed = false;
            iteration = iteration + 1;
            proof {
                reveal_strlit("$(");
                reveal_strlit(")");
                reveal_strlit("${");
                reveal_strlit("}");
            }
            let first = match self.substitute_pattern(result.as_str(), "$(", ")", &mut changed) {
                Ok(text) => text,
                Err(e) => {
                    return Err(e);
                },
            };
            let second = match self.substitute_pattern(first.as_str(), "${", "}", &mut changed) {
                Ok(text) => text,
                Err(e) => {
                    return Err(e);
                },
            };
            result = second;
        }
        Ok(result)
    }
}

} // verus!
