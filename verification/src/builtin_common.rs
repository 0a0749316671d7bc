//! Common helpers for implementing built-ins.

use crate::env::Env;
use crate::message::{Annotation, AnnotationType, Message};
use crate::semantics::Divert;
use crate::stack::{top_builtin, BuiltinEnv};
use vstd::prelude::*;

verus! {

/// The text an annotation contributes to a rendered message: a line of its
/// own holding the label.
pub open spec fn annotation_text(a: Annotation) -> Seq<char> {
    seq!['\n'] + a.label@
}

/// The text a sequence of annotations contributes to a rendered message.
pub open spec fn annotations_text(annotations: Seq<Annotation>) -> Seq<char>
    decreases annotations,
{
    if annotations.len() == 0 {
        Seq::empty()
    } else {
        annotations_text(annotations.drop_last()) + annotation_text(annotations.last())
    }
}

/// The text rendering of a message: its title, then one line per annotation.
pub open spec fn message_text(m: Message) -> Seq<char> {
    m.title@ + annotations_text(m.annotations@)
}

/// The label of the annotation that names the currently executing built-in.
pub open spec fn builtin_annotation_label(name: Seq<char>) -> Seq<char> {
    "error occurred in the "@ + name + " built-in"@
}

/// Converts a message into a string and decides how the caller must divert.
///
/// If the environment is currently executing a built-in, an annotation naming
/// the built-in is appended to the message before rendering, so the returned
/// string holds the title, every annotation of the message, and that
/// built-in line. The returned divert is an interrupt exactly when the
/// executing built-in is special.
pub fn builtin_message_and_divert(env: &Env, message: Message) -> (r: (String, Option<Divert>))
    ensures
        r.0@ == message_text(message) + (match top_builtin(env.stack.frames()) {
            Some(b) => seq!['\n'] + builtin_annotation_label(b.name.value@),
            None => Seq::empty(),
        }),
        r.1 == if (match top_builtin(env.stack.frames()) {
            Some(b) => b.is_special,
            None => false,
        }) {
            Some(Divert::Interrupt(None))
        } else {
            None::<Divert>
        },
{
    let ghost given = message;
    let mut message = message;
    let is_special_builtin: bool;
    match env.stack.current_builtin() {
        Some(builtin) => {
            // Add an annotation indicating the built-in name.
            let mut label = String::new();
            label.append("error occurred in the ");
            label.append(builtin.name.value.as_str());
            label.append(" built-in");
            proof {
                assert(label@ =~= builtin_annotation_label(builtin.name.value@));
            }
            message.annotations.push(
                Annotation::new(AnnotationType::Info, label, &builtin.name.origin),
            );
            proof {
                assert(message.annotations@.drop_last() =~= given.annotations@);
                assert(annotations_text(message.annotations@) =~= annotations_text(
                    given.annotations@,
                ) + annotation_text(message.annotations@.last()));
                assert(message_text(message) =~= message_text(given) + seq!['\n']
                    + builtin_annotation_label(builtin.name.value@));
            }
            is_special_builtin = builtin.is_special;
        },
        None => {
            is_special_builtin = false;
        },
    }
    let text = render_message(&message);
    let divert = if is_special_builtin {
        Some(Divert::Interrupt(None))
    } else {
        None
    };
    (text, divert)
}

/// Renders a message: its title, then one line per annotation.
pub fn render_message(message: &Message) -> (r: String)
    ensures
        r@ == message_text(*message),
{
    let mut text = message.title.clone();
    let n = message.annotations.len();
    let mut i: usize = 0;
    while i < n
        invariant
            i <= n,
            n == message.annotations@.len(),
            text@ == message.title@ + annotations_text(message.annotations@.take(i as int)),
        decreases n - i,
    {
        crate::syntax::push_char(&mut text, '\n');
        text.append(message.annotations[i].label.as_str());
        proof {
            assert(message.annotations@.take(i + 1 as int).drop_last() =~= message.annotations@.take(
                i as int,
            ));
            assert(message.annotations@.take(i + 1 as int).last() == message.annotations@[i as int]);
            assert(text@ =~= message.title@ + annotations_text(
                message.annotations@.take(i + 1 as int),
            ));
        }
        i = i + 1;
    }
    proof {
        assert(message.annotations@.take(n as int) =~= message.annotations@);
    }
    text
}

/// The label of the annotation [`syntax_error_message`] builds.
pub open spec fn syntax_error_title() -> Seq<char> {
    seq![
        'c',
        'o',
        'm',
        'm',
        'a',
        'n',
        'd',
        ' ',
        'a',
        'r',
        'g',
        'u',
        'm',
        'e',
        'n',
        't',
        ' ',
        's',
        'y',
        'n',
        't',
        'a',
        'x',
        ' ',
        'e',
        'r',
        'r',
        'o',
        'r',
    ]
}

/// Builds the diagnostic message for a command argument syntax error, with
/// the given label pointing at the offending location.
pub fn syntax_error_message(label: String, location: &crate::source::Location) -> (r: Message)
    ensures
        r.message_type == AnnotationType::Error,
        r.title@ == syntax_error_title(),
        r.annotations@.len() == 1,
        r.annotations@[0].annotation_type == AnnotationType::Error,
        r.annotations@[0].label == label,
        r.annotations@[0].location == *location,
{
    let mut title = String::new();
    title.append("command argument syntax error");
    proof {
        reveal_strlit("command argument syntax error");
        assert(title@ =~= syntax_error_title());
    }
    let mut annotations: Vec<Annotation> = Vec::new();
    annotations.push(Annotation::new(AnnotationType::Error, label, location));
    Message { message_type: AnnotationType::Error, title, annotations }
}

} // verus!
