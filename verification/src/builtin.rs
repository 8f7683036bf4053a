//! The helpers that every service offers to its templates.
//!
//! All of them turn values into text and touch nothing else. `js_global` writes a script that
//! assigns an object of texts to a global of the page; `wrap_script` puts a text between script
//! tags; `newline_to_br` turns line ends into line break tags.

use vstd::prelude::*;
use vstd::string::StringExecFns;
use crate::error::{Failure, TemplateError};
use crate::text::{
    join, lemma_join_push, lemma_substitute_absent, lemma_substitute_concat, replace_char,
    substitute,
};
use crate::value::{find, lookup, Member, Value};

verus! {

/// A text made safe for a string literal between double quotes: every backslash is doubled,
/// then every line end becomes a backslash and an `n`, then every double quote gets a backslash
/// in front.
pub open spec fn escape(text: Seq<char>) -> Seq<char> {
    substitute(substitute(substitute(text, '\\', "\\\\"@), '\n', "\\n"@), '"', "\\\""@)
}

/// `body` between script tags.
pub open spec fn script(body: Seq<char>) -> Seq<char> {
    "<script>"@ + body + "</script>"@
}

/// Whether the member is the one that names the global.
pub open spec fn is_id(member: Member) -> bool {
    member.key@ == "id"@
}

/// The text that a value holds; empty for a value that is no text.
pub open spec fn text_of(value: Value) -> Seq<char> {
    match value {
        Value::Text(text) => text@,
        _ => Seq::empty(),
    }
}

/// One member as an entry of an object literal: the key as it is and the escaped value, each
/// between double quotes, with a colon between them.
pub open spec fn entry(member: Member) -> Seq<char> {
    "\""@ + member.key@ + "\":\""@ + escape(text_of(member.value)) + "\""@
}

/// The entries of all members but those named `id`, in the order of the members.
pub open spec fn entries(members: Seq<Member>) -> Seq<Seq<char>>
    decreases members.len(),
{
    if members.len() == 0 {
        Seq::empty()
    } else if is_id(members.last()) {
        entries(members.drop_last())
    } else {
        entries(members.drop_last()).push(entry(members.last()))
    }
}

/// The position of the first member that cannot be written as an entry: one that is not named
/// `id` and whose value is no text.
pub open spec fn first_unwritable(members: Seq<Member>) -> Option<int>
    decreases members.len(),
{
    if members.len() == 0 {
        None
    } else {
        match first_unwritable(members.drop_last()) {
            Some(i) => Some(i),
            None => if !is_id(members.last()) && !(members.last().value is Text) {
                Some(members.len() - 1)
            } else {
                None
            },
        }
    }
}

/// The assignment that `js_global` writes for the members: `window["<id>"]={<entries>}` with a
/// comma between each two entries and none after the last. It fails where no member is named
/// `id`, where that member is no text, and where another member is no text; of several such
/// members the first is reported.
pub open spec fn js_global_text(members: Seq<Member>) -> Result<Seq<char>, Failure> {
    match find(members, "id"@) {
        None => Err(Failure::MissingId),
        Some(Value::Text(id)) => match first_unwritable(members) {
            Some(i) => Err(Failure::ValueNotText { key: members[i].key@ }),
            None => Ok("window[\""@ + id@ + "\"]={"@ + join(entries(members), ","@) + "}"@),
        },
        Some(_) => Err(Failure::IdNotText),
    }
}

/// The statement that the filter writes for one item of an array.
pub open spec fn statement(item: Value) -> Result<Seq<char>, Failure> {
    match item {
        Value::Object(members) => js_global_text(members@),
        _ => Err(Failure::ItemNotObject),
    }
}

/// The statements for the items of an array, in order, each closed by a semicolon. The first
/// item that fails decides the failure.
pub open spec fn statements(items: Seq<Value>) -> Result<Seq<char>, Failure>
    decreases items.len(),
{
    if items.len() == 0 {
        Ok(Seq::empty())
    } else {
        match statements(items.drop_last()) {
            Err(failure) => Err(failure),
            Ok(earlier) => match statement(items.last()) {
                Err(failure) => Err(failure),
                Ok(text) => Ok(earlier + text + ";"@),
            },
        }
    }
}

/// `text` between script tags, or the failure.
pub open spec fn in_script(text: Result<Seq<char>, Failure>) -> Result<Seq<char>, Failure> {
    match text {
        Ok(body) => Ok(script(body)),
        Err(failure) => Err(failure),
    }
}

/// What the filter form of `js_global` makes of a value.
pub open spec fn js_global_filtered(value: Value) -> Result<Seq<char>, Failure> {
    match value {
        Value::Object(members) => in_script(js_global_text(members@)),
        Value::Array(items) => in_script(statements(items@)),
        _ => Err(Failure::NotObjectOrArray),
    }
}

/// What `wrap_script` makes of a value.
pub open spec fn script_wrapped(value: Value) -> Result<Seq<char>, Failure> {
    match value {
        Value::Text(text) => Ok(script(text@)),
        _ => Err(Failure::NotText),
    }
}

/// What `newline_to_br` makes of a value.
pub open spec fn with_line_breaks(value: Value) -> Result<Seq<char>, Failure> {
    match value {
        Value::Text(text) => Ok(substitute(text@, '\n', "<br/>"@)),
        _ => Err(Failure::NotText),
    }
}

/// Whether a helper that returns a string returned what was expected of it.
pub open spec fn writes(
    r: Result<String, TemplateError>,
    expected: Result<Seq<char>, Failure>,
) -> bool {
    match expected {
        Ok(text) => r matches Ok(written) && written@ == text,
        Err(failure) => r matches Err(error) && error@ == failure,
    }
}

/// Whether a helper that returns a value returned what was expected of it: the text as a text
/// value, or the failure.
pub open spec fn yields(
    r: Result<Value, TemplateError>,
    expected: Result<Seq<char>, Failure>,
) -> bool {
    match expected {
        Ok(text) => r matches Ok(Value::Text(written)) && written@ == text,
        Err(failure) => r matches Err(error) && error@ == failure,
    }
}

/// An unwritable member stays the first one however many members follow it.
proof fn lemma_first_unwritable_stays(members: Seq<Member>, upto: int)
    requires
        0 <= upto <= members.len(),
        first_unwritable(members.take(upto)) is Some,
    ensures
        first_unwritable(members) == first_unwritable(members.take(upto)),
    decreases members.len() - upto,
{
    if upto < members.len() {
        assert(members.take(upto + 1).drop_last() =~= members.take(upto));
        lemma_first_unwritable_stays(members, upto + 1);
    } else {
        assert(members.take(upto) =~= members);
    }
}

/// A failing item decides the failure however many items follow it.
proof fn lemma_failed_statement_stays(items: Seq<Value>, upto: int)
    requires
        0 <= upto <= items.len(),
        statements(items.take(upto)) is Err,
    ensures
        statements(items) == statements(items.take(upto)),
    decreases items.len() - upto,
{
    if upto < items.len() {
        assert(items.take(upto + 1).drop_last() =~= items.take(upto));
        lemma_failed_statement_stays(items, upto + 1);
    } else {
        assert(items.take(upto) =~= items);
    }
}

/// What escaping makes of one character.
pub open spec fn escaped_char(c: char) -> Seq<char> {
    if c == '\\' {
        "\\\\"@
    } else if c == '\n' {
        "\\n"@
    } else if c == '"' {
        "\\\""@
    } else {
        seq![c]
    }
}

/// A text with each of its characters escaped by itself.
pub open spec fn escaped_each(text: Seq<char>) -> Seq<char>
    decreases text.len(),
{
    if text.len() == 0 {
        Seq::empty()
    } else {
        escaped_each(text.drop_last()) + escaped_char(text.last())
    }
}

/// The three replacements do not get in each other's way: escaping a text is escaping each of
/// its characters by itself.
pub proof fn lemma_escape_char_by_char(text: Seq<char>)
    ensures
        escape(text) == escaped_each(text),
    decreases text.len(),
{
    reveal_strlit("\\\\");
    reveal_strlit("\\n");
    reveal_strlit("\\\"");
    let backslashes = "\\\\"@;
    let line_end = "\\n"@;
    let quote = "\\\""@;
    if text.len() > 0 {
        let earlier = text.drop_last();
        let c = text.last();
        lemma_escape_char_by_char(earlier);
        let piece = if c == '\\' {
            backslashes
        } else {
            seq![c]
        };
        let doubled = substitute(earlier, '\\', backslashes);
        assert(substitute(text, '\\', backslashes) =~= doubled + piece);
        lemma_substitute_concat(doubled, piece, '\n', line_end);
        let one_line = substitute(doubled, '\n', line_end);
        let piece_one_line = substitute(piece, '\n', line_end);
        lemma_substitute_concat(one_line, piece_one_line, '"', quote);
        assert(substitute(Seq::<char>::empty(), '\n', line_end) =~= Seq::<char>::empty());
        assert(substitute(Seq::<char>::empty(), '"', quote) =~= Seq::<char>::empty());
        if c == '\\' {
            lemma_substitute_absent(piece, '\n', line_end);
            lemma_substitute_absent(piece, '"', quote);
        } else if c == '\n' {
            assert(piece.drop_last() =~= Seq::<char>::empty());
            assert(piece_one_line =~= line_end);
            lemma_substitute_absent(line_end, '"', quote);
        } else if c == '"' {
            lemma_substitute_absent(piece, '\n', line_end);
            assert(piece.drop_last() =~= Seq::<char>::empty());
            assert(substitute(piece, '"', quote) =~= quote);
        } else {
            lemma_substitute_absent(piece, '\n', line_end);
            lemma_substitute_absent(piece, '"', quote);
        }
    }
}

/// Escapes a text for a string literal between double quotes.
pub fn escape_text(text: &str) -> (r: String)
    ensures
        r@ == escape(text@),
{
    let doubled = replace_char(text, '\\', "\\\\");
    let one_line = replace_char(doubled.as_str(), '\n', "\\n");
    replace_char(one_line.as_str(), '"', "\\\"")
}

/// Puts a text between script tags.
pub fn wrap_script(body: &str) -> (r: String)
    ensures
        r@ == script(body@),
{
    let mut out = "<script>".to_owned();
    out.append(body);
    out.append("</script>");
    out
}

/// Writes the assignment of the members to the global that the member `id` names: every other
/// member becomes an entry of the object, in the order of the members, with its value escaped.
pub fn js_global(members: &Vec<Member>) -> (r: Result<String, TemplateError>)
    ensures
        writes(r, js_global_text(members@)),
{
    let id = match lookup(members, "id") {
        None => {
            return Err(TemplateError::MissingId);
        },
        Some(Value::Text(id)) => id,
        Some(_) => {
            return Err(TemplateError::IdNotText);
        },
    };
    let id_key = "id".to_owned();
    let mut buf = "window[\"".to_owned();
    buf.append(id.as_str());
    buf.append("\"]={");
    let ghost head = buf@;
    let mut first = true;
    let mut i: usize = 0;
    proof {
        assert(head + join(Seq::<Seq<char>>::empty(), ","@) =~= head);
    }
    while i < members.len()
        invariant
            i <= members@.len(),
            id_key@ == "id"@,
            find(members@, "id"@) == Some(Value::Text(*id)),
            head == "window[\""@ + id@ + "\"]={"@,
            first_unwritable(members@.take(i as int)) is None,
            first == (entries(members@.take(i as int)).len() == 0),
            buf@ == head + join(entries(members@.take(i as int)), ","@),
        decreases members@.len() - i,
    {
        let member = &members[i];
        proof {
            assert(members@.take(i + 1).drop_last() =~= members@.take(i as int));
        }
        let names_global = member.key == id_key;
        if !names_global {
            match &member.value {
                Value::Text(text) => {
                    let ghost before = entries(members@.take(i as int));
                    if !first {
                        buf.append(",");
                    }
                    buf.append("\"");
                    buf.append(member.key.as_str());
                    buf.append("\":\"");
                    let escaped = escape_text(text.as_str());
                    buf.append(escaped.as_str());
                    buf.append("\"");
                    first = false;
                    proof {
                        lemma_join_push(before, ","@, entry(*member));
                        if before.len() == 0 {
                            assert(buf@ =~= head + entry(*member));
                        } else {
                            assert(buf@ =~= head + (join(before, ","@) + ","@ + entry(*member)));
                        }
                    }
                },
                _ => {
                    proof {
                        assert(first_unwritable(members@.take(i + 1)) == Some(i as int));
                        lemma_first_unwritable_stays(members@, i + 1);
                    }
                    return Err(TemplateError::ValueNotText { key: member.key.clone() });
                },
            }
        }
        i = i + 1;
    }
    proof {
        assert(members@.take(members@.len() as int) =~= members@);
    }
    buf.append("}");
    Ok(buf)
}

/// `js_global` as a function of the template engine: the assignment between script tags.
pub fn js_global_function(args: &Vec<Member>) -> (r: Result<Value, TemplateError>)
    ensures
        yields(r, in_script(js_global_text(args@))),
{
    match js_global(args) {
        Ok(text) => Ok(Value::Text(wrap_script(text.as_str()))),
        Err(error) => Err(error),
    }
}

/// `js_global` as a filter. An object is written like the arguments of the function form; an
/// array of objects becomes one statement for each object, all between one pair of script
/// tags; anything else is refused. The arguments of the filter are not looked at.
pub fn js_global_filter(value: &Value, _args: &Vec<Member>) -> (r: Result<Value, TemplateError>)
    ensures
        yields(r, js_global_filtered(*value)),
{
    match value {
        Value::Object(members) => js_global_function(members),
        Value::Array(items) => {
            let mut buf = String::new();
            let mut i: usize = 0;
            while i < items.len()
                invariant
                    i <= items@.len(),
                    js_global_filtered(*value) == in_script(statements(items@)),
                    statements(items@.take(i as int)) == Ok::<Seq<char>, Failure>(buf@),
                decreases items@.len() - i,
            {
                proof {
                    assert(items@.take(i + 1).drop_last() =~= items@.take(i as int));
                }
                let written = match &items[i] {
                    Value::Object(members) => js_global(members),
                    _ => Err(TemplateError::ItemNotObject),
                };
                match written {
                    Ok(text) => {
                        buf.append(text.as_str());
                        buf.append(";");
                    },
                    Err(error) => {
                        proof {
                            assert(statement(items@[i as int]) == Err::<Seq<char>, Failure>(
                                error@,
                            ));
                            assert(statements(items@.take(i + 1)) == Err::<Seq<char>, Failure>(
                                error@,
                            ));
                            lemma_failed_statement_stays(items@, i + 1);
                        }
                        return Err(error);
                    },
                }
                i = i + 1;
            }
            proof {
                assert(items@.take(items@.len() as int) =~= items@);
            }
            Ok(Value::Text(wrap_script(buf.as_str())))
        },
        _ => Err(TemplateError::NotObjectOrArray),
    }
}

/// The filter `wrap_script`: a text between script tags. The arguments are not looked at.
pub fn wrap_script_filter(value: &Value, _args: &Vec<Member>) -> (r: Result<
    Value,
    TemplateError,
>)
    ensures
        yields(r, script_wrapped(*value)),
{
    match value {
        Value::Text(text) => Ok(Value::Text(wrap_script(text.as_str()))),
        _ => Err(TemplateError::NotText),
    }
}

/// The filter `newline_to_br`: a text with `<br/>` in place of every line end. The arguments
/// are not looked at.
pub fn newline_to_br_filter(value: &Value, _args: &Vec<Member>) -> (r: Result<
    Value,
    TemplateError,
>)
    ensures
        yields(r, with_line_breaks(*value)),
{
    match value {
        Value::Text(text) => Ok(Value::Text(replace_char(text.as_str(), '\n', "<br/>"))),
        _ => Err(TemplateError::NotText),
    }
}

/// How the template engine calls a helper.
#[derive(Clone, Copy, Debug, PartialEq, Eq, Structural)]
pub enum ExtensionKind {
    /// Called by name with named arguments.
    Function,
    /// Applied to a value, with named arguments.
    Filter,
}

/// The helpers that every service registers, before any helper of a module.
#[derive(Clone, Copy, Debug, PartialEq, Eq, Structural)]
pub enum Builtin {
    JsGlobalFunction,
    JsGlobalFilter,
    WrapScript,
    NewlineToBr,
}

/// The built-in helpers in the order in which they are registered.
pub open spec fn builtins() -> Seq<Builtin> {
    seq![
        Builtin::JsGlobalFunction,
        Builtin::JsGlobalFilter,
        Builtin::WrapScript,
        Builtin::NewlineToBr,
    ]
}

/// The name under which a helper is registered.
pub open spec fn name_of(builtin: Builtin) -> Seq<char> {
    match builtin {
        Builtin::JsGlobalFunction => "js_global"@,
        Builtin::JsGlobalFilter => "js_global"@,
        Builtin::WrapScript => "wrap_script"@,
        Builtin::NewlineToBr => "newline_to_br"@,
    }
}

/// How a helper is called.
pub open spec fn kind_of(builtin: Builtin) -> ExtensionKind {
    match builtin {
        Builtin::JsGlobalFunction => ExtensionKind::Function,
        _ => ExtensionKind::Filter,
    }
}

/// What a helper makes of a value and arguments. A function has no value, and a filter here
/// looks at no argument.
pub open spec fn result_of(builtin: Builtin, value: Value, args: Seq<Member>) -> Result<
    Seq<char>,
    Failure,
> {
    match builtin {
        Builtin::JsGlobalFunction => in_script(js_global_text(args)),
        Builtin::JsGlobalFilter => js_global_filtered(value),
        Builtin::WrapScript => script_wrapped(value),
        Builtin::NewlineToBr => with_line_breaks(value),
    }
}

/// The filter form of `js_global` makes of an object what the function form makes of the
/// members of the object as arguments.
pub proof fn lemma_filter_on_object_is_function(
    members: Vec<Member>,
    args: Seq<Member>,
    any: Value,
)
    ensures
        result_of(Builtin::JsGlobalFilter, Value::Object(members), args) == result_of(
            Builtin::JsGlobalFunction,
            any,
            members@,
        ),
{
}

impl Builtin {
    /// The name under which the helper is registered.
    pub fn name(self) -> (r: &'static str)
        ensures
            r@ == name_of(self),
    {
        match self {
            Builtin::JsGlobalFunction => "js_global",
            Builtin::JsGlobalFilter => "js_global",
            Builtin::WrapScript => "wrap_script",
            Builtin::NewlineToBr => "newline_to_br",
        }
    }

    /// Whether the helper is registered as a function or as a filter.
    pub fn kind(self) -> (r: ExtensionKind)
        ensures
            r == kind_of(self),
    {
        match self {
            Builtin::JsGlobalFunction => ExtensionKind::Function,
            _ => ExtensionKind::Filter,
        }
    }

    /// Calls the helper. For a function, `value` is not looked at.
    pub fn call(self, value: &Value, args: &Vec<Member>) -> (r: Result<Value, TemplateError>)
        ensures
            yields(r, result_of(self, *value, args@)),
    {
        match self {
            Builtin::JsGlobalFunction => js_global_function(args),
            Builtin::JsGlobalFilter => js_global_filter(value, args),
            Builtin::WrapScript => wrap_script_filter(value, args),
            Builtin::NewlineToBr => newline_to_br_filter(value, args),
        }
    }
}

/// Puts the built-in helpers on the list of what is to be registered with the template engine,
/// behind what the list holds already.
pub fn add_builtin(extensions: &mut Vec<Builtin>)
    ensures
        final(extensions)@ == old(extensions)@ + builtins(),
{
    extensions.push(Builtin::JsGlobalFunction);
    extensions.push(Builtin::JsGlobalFilter);
    extensions.push(Builtin::WrapScript);
    extensions.push(Builtin::NewlineToBr);
}

} // verus!
