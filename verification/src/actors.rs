//! The echo actors: one per embedded language, the minimal script in each.
//!
//! The handler name is the event that the gateway invokes, so type and
//! handler of each echo have the same name: the carrier's, with the prefix
//! `echo_`.

use vstd::prelude::*;

verus! {

/// The module behind `echo_wasm`, in base64. It exports its `memory`, the
/// bump allocator `aura_alloc(len)` that the carrier writes arguments
/// through (from offset 1024), and the handler `echo_wasm(ptr, len)`, which
/// returns the pair packed as `(ptr << 32) | len`.
pub const WASM_B64: &'static str =
    "AGFzbQEAAAABDAJgAX8Bf2ACf38BfgMDAgABBQMBABAGBwF/AUGACAsHIwMGbWVtb3J5AgAKYXVyYV9hbGxvYwAACWVjaG9fd2FzbQABChoCCwAjACMAIABqJAALDAAgAK1CIIYgAa2ECw==";

/// One echo: the type name, which is the event and the handler too, the
/// language of its carrier, and its source.
pub struct Echo {
    pub name: &'static str,
    pub language: &'static str,
    pub source: String,
}

/// An echo by what it holds.
pub struct EchoView {
    pub name: Seq<char>,
    pub language: Seq<char>,
    pub source: Seq<char>,
}

impl View for Echo {
    type V = EchoView;

    open spec fn view(&self) -> EchoView {
        EchoView {
            name: self.name@,
            language: self.language@,
            source: self.source@,
        }
    }
}

pub open spec fn echo_view(name: Seq<char>, language: Seq<char>, source: Seq<char>) -> EchoView {
    EchoView { name, language, source }
}

/// The echoes, in the order of their registration. `echo_sender` answers
/// with the sender half of its envelope; `echo_priv` does the same and
/// declares that its event needs a bound user.
pub open spec fn echoes() -> Seq<EchoView> {
    seq![
        echo_view("echo_steel"@, "steel"@, "(define (echo_steel args) args)"@),
        echo_view(
            "echo_sender"@,
            "steel"@,
            "(define (echo_sender args) (hash-ref args \"sender\"))"@,
        ),
        echo_view(
            "echo_priv"@,
            "steel"@,
            "(define (interface_schema) (hash \"auth\" (hash \"echo_priv\" \"required\")))\n(define (echo_priv args) (hash-ref args \"sender\"))"@,
        ),
        echo_view("echo_python"@, "python"@, "def echo_python(args):\n    return args\n"@),
        echo_view("echo_nu"@, "nushell"@, "export def echo_nu [args] {\n    $args\n}\n"@),
        echo_view("echo_wasm"@, "wasmtime"@, WASM_B64@),
    ]
}

fn echo(name: &'static str, language: &'static str, source: &str) -> (e: Echo)
    ensures
        e@ == echo_view(name@, language@, source@),
{
    Echo { name, language, source: source.to_string() }
}

/// The echoes to register. A carrier that a build lacks is skipped at the
/// registration, with a note.
pub fn echo_actors() -> (list: Vec<Echo>)
    ensures
        list@.map_values(|e: Echo| e@) == echoes(),
{
    let mut v: Vec<Echo> = Vec::new();
    v.push(echo("echo_steel", "steel", "(define (echo_steel args) args)"));
    v.push(echo("echo_sender", "steel", "(define (echo_sender args) (hash-ref args \"sender\"))"));
    v.push(
        echo(
            "echo_priv",
            "steel",
            "(define (interface_schema) (hash \"auth\" (hash \"echo_priv\" \"required\")))\n(define (echo_priv args) (hash-ref args \"sender\"))",
        ),
    );
    v.push(echo("echo_python", "python", "def echo_python(args):\n    return args\n"));
    v.push(echo("echo_nu", "nushell", "export def echo_nu [args] {\n    $args\n}\n"));
    v.push(echo("echo_wasm", "wasmtime", WASM_B64));
    assert(v@.map_values(|e: Echo| e@) =~= echoes());
    v
}

/// What the registration of an echo comes to: its name for the list of live
/// echoes, or the note on why it is skipped.
pub open spec fn registration_view(name: Seq<char>, outcome: Result<(), Seq<char>>) -> Result<
    Seq<char>,
    Seq<char>,
> {
    match outcome {
        Ok(()) => Ok(name),
        Err(cause) => Err("prism: echo ["@ + name + "] not registered: "@ + cause),
    }
}

/// What the registration of an echo comes to.
pub fn registration(echo: &Echo, outcome: Result<(), String>) -> (r: Result<&'static str, String>)
    ensures
        match registration_view(
            echo.name@,
            match outcome {
                Ok(()) => Ok(()),
                Err(cause) => Err(cause@),
            },
        ) {
            Ok(name) => r matches Ok(n) && n@ == name,
            Err(note) => r matches Err(n) && n@ == note,
        },
{
    match outcome {
        Ok(()) => Ok(echo.name),
        Err(cause) => {
            let mut note = "prism: echo [".to_string();
            note.append(echo.name);
            note.append("] not registered: ");
            note.append(cause.as_str());
            Err(note)
        },
    }
}

/// What becomes of an echo is told by its name: the name itself, or a note
/// that holds the name and the cause.
pub proof fn registrations_name_their_echo(name: Seq<char>, cause: Seq<char>)
    ensures
        registration_view(name, Ok(())) == Ok::<Seq<char>, Seq<char>>(name),
        registration_view(name, Err(cause)) == Err::<Seq<char>, Seq<char>>(
            "prism: echo ["@ + name + "] not registered: "@ + cause,
        ),
{
}

/// The text holds the word.
pub open spec fn holds_word(text: Seq<char>, word: Seq<char>) -> bool {
    exists|at: int|
        0 <= at <= text.len() - word.len() && #[trigger] text.subrange(at, at + word.len()) == word
}

/// The event that calls an echo is the handler in its source: each has a name
/// of its own, with the prefix of an echo, and a source in text declares it.
pub proof fn echoes_declare_their_handlers(i: int, j: int)
    requires
        0 <= i < echoes().len(),
        0 <= j < echoes().len(),
    ensures
        echoes()[i].name == echoes()[j].name ==> i == j,
        crate::text::starts_with(echoes()[i].name, "echo_"@),
        echoes()[i].language != "wasmtime"@ ==> holds_word(
            echoes()[i].source,
            echoes()[i].name,
        ),
{
    reveal_strlit("echo_");
    reveal_strlit("echo_steel");
    reveal_strlit("echo_sender");
    reveal_strlit("echo_priv");
    reveal_strlit("echo_python");
    reveal_strlit("echo_nu");
    reveal_strlit("echo_wasm");
    reveal_strlit("(define (echo_steel args) args)");
    reveal_strlit("(define (echo_sender args) (hash-ref args \"sender\"))");
    reveal_strlit(
        "(define (interface_schema) (hash \"auth\" (hash \"echo_priv\" \"required\")))\n(define (echo_priv args) (hash-ref args \"sender\"))",
    );
    reveal_strlit("def echo_python(args):\n    return args\n");
    reveal_strlit("export def echo_nu [args] {\n    $args\n}\n");
    let all = echoes();
    assert(all[0].name.take(5) =~= "echo_"@);
    assert(all[1].name.take(5) =~= "echo_"@);
    assert(all[2].name.take(5) =~= "echo_"@);
    assert(all[3].name.take(5) =~= "echo_"@);
    assert(all[4].name.take(5) =~= "echo_"@);
    assert(all[5].name.take(5) =~= "echo_"@);
    assert(all[0].name.len() == 10 && all[1].name.len() == 11 && all[2].name.len() == 9);
    assert(all[3].name.len() == 11 && all[4].name.len() == 7 && all[5].name.len() == 9);
    assert(all[1].name[5] == 's' && all[3].name[5] == 'p');
    assert(all[2].name[5] == 'p' && all[5].name[5] == 'w');
    assert(all[0].source.subrange(9, 9int + all[0].name.len()) =~= all[0].name);
    assert(all[1].source.subrange(9, 9int + all[1].name.len()) =~= all[1].name);
    assert(all[2].source.subrange(47, 47int + all[2].name.len()) =~= all[2].name);
    assert(all[3].source.subrange(4, 4int + all[3].name.len()) =~= all[3].name);
    assert(all[4].source.subrange(11, 11int + all[4].name.len()) =~= all[4].name);
    assert(i == 0 || i == 1 || i == 2 || i == 3 || i == 4 || i == 5);
    assert(j == 0 || j == 1 || j == 2 || j == 3 || j == 4 || j == 5);
}

}
