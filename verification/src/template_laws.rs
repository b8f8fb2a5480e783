//! What holds of parsing and expanding templates.

use vstd::prelude::*;

use crate::template;
use crate::template::{
    ArgView, SegmentView, TemplateFault, COMMAND_PLACEHOLDER, SSH_OPTIONS_PLACEHOLDER,
    TARGET_PLACEHOLDER,
};

verus! {

/// Text with every brace doubled.
pub open spec fn escaped(text: Seq<char>) -> Seq<char>
    decreases text.len(),
{
    if text.len() == 0 {
        Seq::empty()
    } else if template::is_brace(text[0]) {
        seq![text[0], text[0]] + escaped(text.skip(1))
    } else {
        seq![text[0]] + escaped(text.skip(1))
    }
}

/// The name of a placeholder in braces.
pub open spec fn braced(name: Seq<char>) -> Seq<char> {
    seq!['{'] + name + seq!['}']
}

/// One segment as a template writes it.
pub open spec fn rendered_segment(segment: SegmentView) -> Seq<char> {
    match segment {
        SegmentView::Literal(text) => escaped(text),
        SegmentView::Target => braced(TARGET_PLACEHOLDER@),
        SegmentView::Command => braced(COMMAND_PLACEHOLDER@),
        SegmentView::SshOptions => braced(SSH_OPTIONS_PLACEHOLDER@),
    }
}

/// Segments as a template writes them.
pub open spec fn rendered(segments: Seq<SegmentView>) -> Seq<char>
    decreases segments.len(),
{
    if segments.len() == 0 {
        Seq::empty()
    } else {
        rendered_segment(segments[0]) + rendered(segments.skip(1))
    }
}

/// Escaped text reads as the text.
proof fn lemma_read_escaped(segments: Seq<SegmentView>, text: Seq<char>, rest: Seq<char>)
    requires
        text.len() > 0,
    ensures
        template::read(segments, escaped(text) + rest) == template::read(
            template::with_segment(segments, SegmentView::Literal(text)),
            rest,
        ),
    decreases text.len(),
{
    let first = SegmentView::Literal(seq![text[0]]);
    let more = text.skip(1);
    let taken: nat = if template::is_brace(text[0]) { 2 } else { 1 };
    let all = escaped(text) + rest;
    assert(all[0] == text[0]);
    assert(taken == 2 ==> all[1] == text[0]);
    assert(template::first_piece(all) == Ok::<(SegmentView, nat), TemplateFault>(
        (first, taken),
    ));
    assert(all.skip(taken as int) =~= escaped(more) + rest);
    if more.len() == 0 {
        assert(escaped(more) + rest =~= rest);
        assert(text =~= seq![text[0]]);
    } else {
        lemma_read_escaped(template::with_segment(segments, first), more, rest);
        template::lemma_with_segment_twice(segments, seq![text[0]], more);
        assert(seq![text[0]] + more =~= text);
    }
}

/// The placeholders' names differ, and hold no brace.
proof fn lemma_names()
    ensures
        TARGET_PLACEHOLDER@ != COMMAND_PLACEHOLDER@,
        TARGET_PLACEHOLDER@ != SSH_OPTIONS_PLACEHOLDER@,
        COMMAND_PLACEHOLDER@ != SSH_OPTIONS_PLACEHOLDER@,
        TARGET_PLACEHOLDER@.len() > 0,
        COMMAND_PLACEHOLDER@.len() > 0,
        SSH_OPTIONS_PLACEHOLDER@.len() > 0,
        forall|i: int|
            0 <= i < TARGET_PLACEHOLDER@.len() ==> !template::is_brace(
                #[trigger] TARGET_PLACEHOLDER@[i],
            ),
        forall|i: int|
            0 <= i < COMMAND_PLACEHOLDER@.len() ==> !template::is_brace(
                #[trigger] COMMAND_PLACEHOLDER@[i],
            ),
        forall|i: int|
            0 <= i < SSH_OPTIONS_PLACEHOLDER@.len() ==> !template::is_brace(
                #[trigger] SSH_OPTIONS_PLACEHOLDER@[i],
            ),
{
    reveal_strlit("target");
    reveal_strlit("command");
    reveal_strlit("ssh_options");
    assert(TARGET_PLACEHOLDER@.len() == 6);
    assert(COMMAND_PLACEHOLDER@.len() == 7);
    assert(SSH_OPTIONS_PLACEHOLDER@.len() == 11);
}

/// A placeholder in braces reads as its segment.
proof fn lemma_read_placeholder(segments: Seq<SegmentView>, segment: SegmentView, rest: Seq<char>)
    requires
        !(segment is Literal),
    ensures
        template::read(segments, rendered_segment(segment) + rest)
            == template::read(segments.push(segment), rest),
{
    lemma_names();
    let name = match segment {
        SegmentView::Target => TARGET_PLACEHOLDER@,
        SegmentView::Command => COMMAND_PLACEHOLDER@,
        _ => SSH_OPTIONS_PLACEHOLDER@,
    };
    let all = braced(name) + rest;
    assert(rendered_segment(segment) == braced(name));
    assert(all[0] == '{');
    assert(all[1] == name[0]);
    let after = all.skip(1);
    assert(after =~= name + seq!['}'] + rest);
    assert forall|i: int| 0 <= i < name.len() implies #[trigger] after[i] != '}' by {
        assert(after[i] == name[i]);
        assert(!template::is_brace(name[i]));
    }
    assert(after[name.len() as int] == '}');
    template::lemma_before_close(after, name.len());
    assert(all.subrange(1, 1 + name.len() as int) =~= name);
    assert(template::first_piece(all) == Ok::<(SegmentView, nat), TemplateFault>(
        (segment, name.len() + 2),
    ));
    assert(all.skip(name.len() + 2int) =~= rest);
}

/// Rendered segments read as themselves after others.
proof fn lemma_read_rendered(before: Seq<SegmentView>, segments: Seq<SegmentView>)
    requires
        template::mergeable(before + segments),
    ensures
        template::read(before, rendered(segments)) == Ok::<
            Seq<SegmentView>,
            TemplateFault,
        >(before + segments),
    decreases segments.len(),
{
    if segments.len() == 0 {
        assert(before + segments =~= before);
    } else {
        let first = segments[0];
        let more = segments.skip(1);
        let all = before + segments;
        assert(before.push(first) + more =~= all);
        assert(all[before.len() as int] == first);
        lemma_read_rendered(before.push(first), more);
        match first {
            SegmentView::Literal(text) => {
                lemma_read_escaped(before, text, rendered(more));
                if before.len() > 0 {
                    assert(all[before.len() - 1] == before.last());
                }
            },
            _ => {
                lemma_read_placeholder(before, first, rendered(more));
            },
        }
    }
}

/// Canonical segments can be written as a template: doubled braces for braces,
/// names in braces for placeholders. Parsing gives them back.
pub proof fn law_rendered_segments_parse_back(segments: Seq<SegmentView>)
    requires
        template::canonical(segments),
    ensures
        template::template(rendered(segments)) == Ok::<Seq<SegmentView>, TemplateFault>(
            segments,
        ),
{
    if segments == seq![SegmentView::Literal(Seq::empty())] {
        assert(rendered(segments.skip(1)) =~= Seq::empty());
        assert(escaped(Seq::empty()) =~= Seq::empty());
        assert(rendered(segments) =~= Seq::empty());
    } else {
        assert(Seq::empty() + segments =~= segments);
        lemma_read_rendered(Seq::empty(), segments);
    }
}

/// Doubling every brace of a text gives a template for that text, whatever the
/// target and the remote command are.
pub proof fn law_escaped_text_stands_for_itself(
    text: Seq<char>,
    target: Seq<char>,
    remote_command: Seq<char>,
)
    ensures
        template::template(escaped(text)) == Ok::<Seq<SegmentView>, TemplateFault>(
            seq![SegmentView::Literal(text)],
        ),
        template::expanded(seq![SegmentView::Literal(text)], target, remote_command) == text,
{
    let segments = seq![SegmentView::Literal(text)];
    if text.len() == 0 {
        assert(text =~= Seq::empty());
    }
    law_rendered_segments_parse_back(segments);
    assert(rendered(segments.skip(1)) =~= Seq::empty());
    assert(rendered(segments) =~= escaped(text));
    assert(template::expanded(segments.drop_last(), target, remote_command)
        =~= Seq::empty());
}

/// Text without braces is its own template.
pub proof fn law_text_without_braces_is_literal(text: Seq<char>)
    requires
        forall|i: int| 0 <= i < text.len() ==> !template::is_brace(#[trigger] text[i]),
    ensures
        template::template(text) == Ok::<Seq<SegmentView>, TemplateFault>(
            seq![SegmentView::Literal(text)],
        ),
{
    lemma_escaped_plain(text);
    law_escaped_text_stands_for_itself(text, Seq::empty(), Seq::empty());
}

/// Escaping changes braces only.
proof fn lemma_escaped_plain(text: Seq<char>)
    requires
        forall|i: int| 0 <= i < text.len() ==> !template::is_brace(#[trigger] text[i]),
    ensures
        escaped(text) == text,
    decreases text.len(),
{
    if text.len() > 0 {
        let more = text.skip(1);
        assert forall|i: int| 0 <= i < more.len() implies !template::is_brace(
            #[trigger] more[i],
        ) by {
            assert(more[i] == text[i + 1]);
        }
        lemma_escaped_plain(more);
    }
    assert(escaped(text) =~= text);
}

/// Reading on never changes the kind of a segment, nor a placeholder.
proof fn lemma_read_extends(segments: Seq<SegmentView>, text: Seq<char>)
    requires
        segments.len() > 0,
    ensures
        template::read(segments, text) matches Ok(all) ==> {
            let last = segments.len() - 1;
            &&& all.len() >= segments.len()
            &&& forall|i: int| 0 <= i < last ==> all[i] == #[trigger] segments[i]
            &&& segments[last] is Literal ==> all[last] is Literal
            &&& !(segments[last] is Literal) ==> all[last] == segments[last] && (text.len() > 0
                ==> all.len() > segments.len())
        },
    decreases text.len(),
{
    if text.len() > 0 {
        if let Ok((piece, taken)) = template::first_piece(text) {
            let next = template::with_segment(segments, piece);
            let last = segments.len() - 1;
            lemma_read_extends(next, text.skip(taken as int));
            assert(next.len() > segments.len() ==> next[last] == segments[last]);
            assert(forall|i: int| 0 <= i < last ==> next[i] == #[trigger] segments[i]);
        }
    }
}

/// A template is a lone placeholder exactly where it is the name in braces.
pub proof fn law_lone_placeholder(raw: Seq<char>, segment: SegmentView)
    requires
        !(segment is Literal),
    ensures
        template::template(raw) == Ok::<Seq<SegmentView>, TemplateFault>(seq![segment])
            <==> raw == rendered_segment(segment),
{
    let lone = seq![segment];
    assert(rendered(lone.skip(1)) =~= Seq::empty());
    assert(rendered(lone) =~= rendered_segment(segment));
    law_rendered_segments_parse_back(lone);
    if template::template(raw) == Ok::<Seq<SegmentView>, TemplateFault>(lone) {
        assert(lone[0] == segment);
        assert(raw.len() > 0);
        if let Ok((piece, taken)) = template::first_piece(raw) {
            let start = template::with_segment(Seq::empty(), piece);
            assert(start =~= seq![piece]);
            lemma_read_extends(start, raw.skip(taken as int));
            assert(taken == raw.len());
            assert(raw =~= seq!['{'] + raw.subrange(1, raw.len() - 1) + seq!['}']) by {
                lemma_close_found(raw.skip(1));
            }
        }
    }
}

/// Where the first closing brace is found, it stands there.
proof fn lemma_close_found(text: Seq<char>)
    ensures
        template::before_close(text) <= text.len(),
        template::before_close(text) < text.len()
            ==> text[template::before_close(text) as int] == '}',
    decreases text.len(),
{
    if text.len() > 0 && text[0] != '}' {
        lemma_close_found(text.skip(1));
    }
}

/// An argument is the OpenSSH options exactly where it is their name in braces.
pub proof fn law_ssh_options_stand_alone(raw: Seq<char>)
    ensures
        template::argument(raw) == Ok::<ArgView, TemplateFault>(ArgView::SshOptions)
            <==> raw == braced(SSH_OPTIONS_PLACEHOLDER@),
{
    law_lone_placeholder(raw, SegmentView::SshOptions);
    if let Ok(segments) = template::template(raw) {
        if segments.len() == 1 && segments.contains(SegmentView::SshOptions) {
            assert(segments =~= seq![SegmentView::SshOptions]);
        }
        if segments == seq![SegmentView::SshOptions] {
            assert(segments[0] == SegmentView::SshOptions);
        }
    }
}

/// Expansion takes segments one by one: what follows a segment never changes
/// what it became.
pub proof fn law_expansion_joins(
    first: Seq<SegmentView>,
    second: Seq<SegmentView>,
    target: Seq<char>,
    remote_command: Seq<char>,
)
    ensures
        template::expanded(first + second, target, remote_command)
            == template::expanded(first, target, remote_command)
            + template::expanded(second, target, remote_command),
    decreases second.len(),
{
    let all = first + second;
    if second.len() == 0 {
        assert(all =~= first);
    } else {
        assert(all.drop_last() =~= first + second.drop_last());
        assert(all.last() == second.last());
        law_expansion_joins(first, second.drop_last(), target, remote_command);
    }
    assert(template::expanded(all, target, remote_command) =~= template::expanded(
        first,
        target,
        remote_command,
    ) + template::expanded(second, target, remote_command));
}

/// The target and the remote command are put in as they are, between what the
/// other segments give. Braces and placeholders in them mean nothing.
pub proof fn law_substitution_is_verbatim(
    segments: Seq<SegmentView>,
    at: int,
    target: Seq<char>,
    remote_command: Seq<char>,
)
    requires
        0 <= at < segments.len(),
    ensures
        template::expanded(segments, target, remote_command)
            == template::expanded(segments.take(at), target, remote_command)
            + template::segment_text(segments[at], target, remote_command)
            + template::expanded(segments.skip(at + 1), target, remote_command),
{
    let head = segments.take(at + 1);
    assert(head + segments.skip(at + 1) =~= segments);
    law_expansion_joins(head, segments.skip(at + 1), target, remote_command);
    assert(head.drop_last() =~= segments.take(at));
    assert(head.last() == segments[at]);
}

/// Text without placeholders is the same for every target and remote command.
pub proof fn law_literal_text_is_constant(
    segments: Seq<SegmentView>,
    target: Seq<char>,
    remote_command: Seq<char>,
    other_target: Seq<char>,
    other_command: Seq<char>,
)
    requires
        template::all_literal(segments),
    ensures
        template::expanded(segments, target, remote_command)
            == template::expanded(segments, other_target, other_command),
    decreases segments.len(),
{
    if segments.len() > 0 {
        let fewer = segments.drop_last();
        assert forall|i: int| 0 <= i < fewer.len() implies #[trigger] fewer[i] is Literal by {
            assert(fewer[i] == segments[i]);
        }
        assert(segments.last() is Literal);
        law_literal_text_is_constant(
            fewer,
            target,
            remote_command,
            other_target,
            other_command,
        );
    }
}

/// The placeholders are spelled `{target}`, `{command}` and `{ssh_options}`, and
/// no other name stands for anything.
pub proof fn law_placeholder_spellings(name: Seq<char>)
    ensures
        rendered_segment(SegmentView::Target) == "{target}"@,
        rendered_segment(SegmentView::Command) == "{command}"@,
        rendered_segment(SegmentView::SshOptions) == "{ssh_options}"@,
        template::placeholder(name) == Some(SegmentView::Target) <==> name == "target"@,
        template::placeholder(name) == Some(SegmentView::Command) <==> name == "command"@,
        template::placeholder(name) == Some(SegmentView::SshOptions) <==> name == "ssh_options"@,
        template::placeholder(name) matches Some(segment) ==> !(segment is Literal),
{
    lemma_names();
    reveal_strlit("target");
    reveal_strlit("command");
    reveal_strlit("ssh_options");
    reveal_strlit("{target}");
    reveal_strlit("{command}");
    reveal_strlit("{ssh_options}");
    assert(rendered_segment(SegmentView::Target) =~= "{target}"@);
    assert(rendered_segment(SegmentView::Command) =~= "{command}"@);
    assert(rendered_segment(SegmentView::SshOptions) =~= "{ssh_options}"@);
}

/// Escaping doubles `{` and `}`, character by character, and nothing else.
pub proof fn law_escaping_doubles_braces(first: Seq<char>, c: char, second: Seq<char>)
    ensures
        escaped(first + second) == escaped(first) + escaped(second),
        escaped(seq![c]) == if c == '{' || c == '}' {
            seq![c, c]
        } else {
            seq![c]
        },
    decreases first.len(),
{
    assert(seq![c].skip(1) =~= Seq::empty());
    assert(escaped(seq![c].skip(1)) =~= Seq::empty());
    assert(escaped(seq![c]) =~= if c == '{' || c == '}' {
        seq![c, c]
    } else {
        seq![c]
    });
    if first.len() == 0 {
        assert(first + second =~= second);
        assert(escaped(first) + escaped(second) =~= escaped(second));
    } else {
        assert((first + second).skip(1) =~= first.skip(1) + second);
        law_escaping_doubles_braces(first.skip(1), c, second);
        assert(escaped(first + second) =~= escaped(first) + escaped(second));
    }
}

/// Rendered segments read as themselves before more text.
proof fn lemma_read_rendered_then(
    before: Seq<SegmentView>,
    segments: Seq<SegmentView>,
    rest: Seq<char>,
)
    requires
        template::mergeable(before + segments),
    ensures
        template::read(before, rendered(segments) + rest) == template::read(
            before + segments,
            rest,
        ),
    decreases segments.len(),
{
    if segments.len() == 0 {
        assert(before + segments =~= before);
        assert(rendered(segments) + rest =~= rest);
    } else {
        let first = segments[0];
        let more = segments.skip(1);
        let all = before + segments;
        assert(before.push(first) + more =~= all);
        assert(all[before.len() as int] == first);
        lemma_read_rendered_then(before.push(first), more, rest);
        assert(rendered(segments) + rest =~= rendered_segment(first) + (rendered(more) + rest));
        match first {
            SegmentView::Literal(text) => {
                lemma_read_escaped(before, text, rendered(more) + rest);
                if before.len() > 0 {
                    assert(all[before.len() - 1] == before.last());
                }
            },
            _ => {
                lemma_read_placeholder(before, first, rendered(more) + rest);
            },
        }
    }
}

/// Segments that alternate between text and placeholders, with no empty text,
/// can be written as a template, and parsing gives back every one of them.
pub proof fn law_every_segment_is_kept(segments: Seq<SegmentView>)
    requires
        segments.len() > 0,
        forall|i: int|
            #![trigger segments[i]]
            0 <= i < segments.len() && segments[i] is Literal
                ==> segments[i]->Literal_0.len() > 0,
        forall|i: int, j: int|
            #![trigger segments[i], segments[j]]
            0 <= i < segments.len() && j == i + 1 && j < segments.len() ==> !(segments[i] is Literal
                && segments[j] is Literal),
    ensures
        template::template(rendered(segments)) == Ok::<Seq<SegmentView>, TemplateFault>(segments),
        (forall|i: int| 0 <= i < segments.len() ==> #[trigger] segments[i] != SegmentView::SshOptions)
            ==> template::argument(rendered(segments)) == Ok::<ArgView, TemplateFault>(
            ArgView::Template(segments),
        ),
{
    assert(template::mergeable(segments));
    law_rendered_segments_parse_back(segments);
}

/// A closing brace that is not doubled means the same as a doubled one,
/// whatever stands before it and after it.
pub proof fn law_lone_closing_brace_is_a_brace(segments: Seq<SegmentView>, rest: Seq<char>)
    requires
        forall|i: int|
            #![trigger segments[i]]
            0 <= i < segments.len() && segments[i] is Literal
                ==> segments[i]->Literal_0.len() > 0,
        forall|i: int, j: int|
            #![trigger segments[i], segments[j]]
            0 <= i < segments.len() && j == i + 1 && j < segments.len() ==> !(segments[i] is Literal
                && segments[j] is Literal),
        rest.len() > 0 ==> rest[0] != '}',
    ensures
        template::template(rendered(segments) + seq!['}'] + rest) == template::template(
            rendered(segments) + seq!['}', '}'] + rest,
        ),
{
    let one = seq!['}'] + rest;
    let two = seq!['}', '}'] + rest;
    assert(template::mergeable(Seq::empty() + segments)) by {
        assert(Seq::empty() + segments =~= segments);
    }
    assert(Seq::empty() + segments =~= segments);
    lemma_read_rendered_then(Seq::empty(), segments, one);
    lemma_read_rendered_then(Seq::empty(), segments, two);
    assert(rendered(segments) + seq!['}'] + rest =~= rendered(segments) + one);
    assert(rendered(segments) + seq!['}', '}'] + rest =~= rendered(segments) + two);
    assert(one.skip(1) =~= rest);
    assert(two.skip(2) =~= rest);
}

/// A name in braces that is none of the three is reported by that name, and
/// nothing after it matters.
pub proof fn law_unknown_name_is_reported(
    segments: Seq<SegmentView>,
    name: Seq<char>,
    rest: Seq<char>,
)
    requires
        forall|i: int|
            #![trigger segments[i]]
            0 <= i < segments.len() && segments[i] is Literal
                ==> segments[i]->Literal_0.len() > 0,
        forall|i: int, j: int|
            #![trigger segments[i], segments[j]]
            0 <= i < segments.len() && j == i + 1 && j < segments.len() ==> !(segments[i] is Literal
                && segments[j] is Literal),
        forall|i: int| 0 <= i < name.len() ==> #[trigger] name[i] != '}',
        name.len() > 0 ==> name[0] != '{',
        name != "target"@,
        name != "command"@,
        name != "ssh_options"@,
    ensures
        template::template(rendered(segments) + seq!['{'] + name + seq!['}'] + rest) == Err::<
            Seq<SegmentView>,
            TemplateFault,
        >(TemplateFault::Unknown(name)),
        template::argument(rendered(segments) + seq!['{'] + name + seq!['}'] + rest) == Err::<
            ArgView,
            TemplateFault,
        >(TemplateFault::Unknown(name)),
{
    let text = seq!['{'] + name + seq!['}'] + rest;
    assert(Seq::empty() + segments =~= segments);
    assert(template::mergeable(segments));
    lemma_read_rendered_then(Seq::empty(), segments, text);
    assert(rendered(segments) + seq!['{'] + name + seq!['}'] + rest =~= rendered(segments) + text);
    let after = text.skip(1);
    assert(after =~= name + seq!['}'] + rest);
    assert forall|i: int| 0 <= i < name.len() implies #[trigger] after[i] != '}' by {
        assert(after[i] == name[i]);
    }
    assert(after[name.len() as int] == '}');
    template::lemma_before_close(after, name.len());
    assert(text[0] == '{');
    assert(text[1] == after[0]);
    assert(text.subrange(1, 1 + name.len() as int) =~= name);
}

/// An opening brace without a closing brace after it is reported.
pub proof fn law_unclosed_brace_is_reported(segments: Seq<SegmentView>, tail: Seq<char>)
    requires
        forall|i: int|
            #![trigger segments[i]]
            0 <= i < segments.len() && segments[i] is Literal
                ==> segments[i]->Literal_0.len() > 0,
        forall|i: int, j: int|
            #![trigger segments[i], segments[j]]
            0 <= i < segments.len() && j == i + 1 && j < segments.len() ==> !(segments[i] is Literal
                && segments[j] is Literal),
        forall|i: int| 0 <= i < tail.len() ==> #[trigger] tail[i] != '}',
        tail.len() > 0 ==> tail[0] != '{',
    ensures
        template::template(rendered(segments) + seq!['{'] + tail) == Err::<
            Seq<SegmentView>,
            TemplateFault,
        >(TemplateFault::Unterminated),
        template::argument(rendered(segments) + seq!['{'] + tail) == Err::<
            ArgView,
            TemplateFault,
        >(TemplateFault::Unterminated),
{
    let text = seq!['{'] + tail;
    assert(Seq::empty() + segments =~= segments);
    assert(template::mergeable(segments));
    lemma_read_rendered_then(Seq::empty(), segments, text);
    assert(rendered(segments) + seq!['{'] + tail =~= rendered(segments) + text);
    assert(text.skip(1) =~= tail);
    template::lemma_before_close(tail, tail.len());
}

/// An argument is its whole template where the OpenSSH options are nowhere in
/// it, the options where they are all of it, and unusable otherwise.
pub proof fn law_argument_is_the_whole_template(raw: Seq<char>)
    ensures
        template::template(raw) matches Ok(segments) ==> {
            let asks = exists|i: int|
                0 <= i < segments.len() && #[trigger] segments[i] == SegmentView::SshOptions;
            &&& !asks ==> template::argument(raw) == Ok::<ArgView, TemplateFault>(
                ArgView::Template(segments),
            )
            &&& asks && segments.len() == 1 ==> template::argument(raw) == Ok::<
                ArgView,
                TemplateFault,
            >(ArgView::SshOptions)
            &&& asks && segments.len() > 1 ==> template::argument(raw) == Err::<
                ArgView,
                TemplateFault,
            >(TemplateFault::OptionsNotAlone)
        },
        template::template(raw) matches Err(fault) ==> template::argument(raw) == Err::<
            ArgView,
            TemplateFault,
        >(fault),
{
}

/// A template argument holds a segment exactly where one of its segments is that
/// segment. The OpenSSH options hold nothing but themselves.
pub proof fn law_argument_contains_its_segments(segments: Seq<SegmentView>, needle: SegmentView)
    ensures
        ArgView::Template(segments).contains(needle) <==> exists|i: int|
            0 <= i < segments.len() && #[trigger] segments[i] == needle,
        ArgView::SshOptions.contains(needle) <==> needle == SegmentView::SshOptions,
        template::all_literal(segments) <==> forall|i: int|
            0 <= i < segments.len() ==> (#[trigger] segments[i] is Literal),
{
}

/// Text becomes itself, the target and the remote command become themselves,
/// and nothing becomes nothing.
pub proof fn law_expansion_of_one_segment(
    text: Seq<char>,
    target: Seq<char>,
    remote_command: Seq<char>,
)
    ensures
        template::expanded(Seq::empty(), target, remote_command) == Seq::<char>::empty(),
        template::expanded(seq![SegmentView::Literal(text)], target, remote_command) == text,
        template::expanded(seq![SegmentView::Target], target, remote_command) == target,
        template::expanded(seq![SegmentView::Command], target, remote_command) == remote_command,
        template::expanded(seq![SegmentView::SshOptions], target, remote_command) == Seq::<
            char,
        >::empty(),
{
    reveal_with_fuel(template::expanded, 2);
    assert(template::expanded(seq![SegmentView::Literal(text)], target, remote_command) =~= text);
    assert(template::expanded(seq![SegmentView::Target], target, remote_command) =~= target);
    assert(template::expanded(seq![SegmentView::Command], target, remote_command)
        =~= remote_command);
    assert(template::expanded(seq![SegmentView::SshOptions], target, remote_command)
        =~= Seq::empty());
}

/// What parts of an argument become, joined, with the target and the remote
/// command put in.
pub open spec fn substituted(
    parts: Seq<SegmentView>,
    target: Seq<char>,
    remote_command: Seq<char>,
) -> Seq<char>
    decreases parts.len(),
{
    if parts.len() == 0 {
        Seq::empty()
    } else {
        let rest = substituted(parts.skip(1), target, remote_command);
        match parts[0] {
            SegmentView::Literal(text) => text + rest,
            SegmentView::Target => target + rest,
            SegmentView::Command => remote_command + rest,
            SegmentView::SshOptions => rest,
        }
    }
}

/// One more segment adds what it becomes to what the others became.
proof fn lemma_expanded_with_segment(
    segments: Seq<SegmentView>,
    next: SegmentView,
    target: Seq<char>,
    remote_command: Seq<char>,
)
    ensures
        template::expanded(template::with_segment(segments, next), target, remote_command)
            == template::expanded(segments, target, remote_command) + template::segment_text(
            next,
            target,
            remote_command,
        ),
        forall|needle: SegmentView|
            !(needle is Literal) ==> (#[trigger] template::with_segment(segments, next).contains(
                needle,
            ) <==> segments.contains(needle) || next == needle),
{
    let all = template::with_segment(segments, next);
    let last = segments.len() - 1;
    assert(all.drop_last().push(all.last()) =~= all);
    if next is Literal && segments.len() > 0 && segments.last() is Literal {
        assert(all.drop_last() =~= segments.drop_last());
        assert(template::expanded(all, target, remote_command) =~= template::expanded(
            segments,
            target,
            remote_command,
        ) + next->Literal_0);
        assert forall|needle: SegmentView| !(needle is Literal) implies (
        #[trigger] all.contains(needle) <==> segments.contains(needle) || next == needle) by {
            if all.contains(needle) {
                let i = choose|i: int| 0 <= i < all.len() && all[i] == needle;
                assert(segments[i] == needle);
            }
            if segments.contains(needle) {
                let i = choose|i: int| 0 <= i < segments.len() && segments[i] == needle;
                assert(all[i] == needle);
            }
        }
    } else {
        assert(all.drop_last() =~= segments);
        assert forall|needle: SegmentView| !(needle is Literal) implies (
        #[trigger] all.contains(needle) <==> segments.contains(needle) || next == needle) by {
            if all.contains(needle) {
                let i = choose|i: int| 0 <= i < all.len() && all[i] == needle;
                if i <= last {
                    assert(segments[i] == needle);
                }
            }
            if segments.contains(needle) {
                let i = choose|i: int| 0 <= i < segments.len() && segments[i] == needle;
                assert(all[i] == needle);
            }
            if next == needle {
                assert(all[last + 1] == needle);
            }
        }
    }
}

/// Parts that are written out read as what they become.
proof fn lemma_read_parts(
    before: Seq<SegmentView>,
    parts: Seq<SegmentView>,
    target: Seq<char>,
    remote_command: Seq<char>,
)
    ensures
        template::read(before, rendered(parts)) matches Ok(all) && {
            &&& template::expanded(all, target, remote_command) == template::expanded(
                before,
                target,
                remote_command,
            ) + substituted(parts, target, remote_command)
            &&& forall|needle: SegmentView|
                !(needle is Literal) ==> (#[trigger] all.contains(needle) <==> before.contains(
                    needle,
                ) || parts.contains(needle))
        },
    decreases parts.len(),
{
    if parts.len() == 0 {
        assert(template::expanded(before, target, remote_command) + substituted(
            parts,
            target,
            remote_command,
        ) =~= template::expanded(before, target, remote_command));
    } else {
        let first = parts[0];
        let more = parts.skip(1);
        assert(seq![first] + more =~= parts);
        let next = if first is Literal && first->Literal_0.len() == 0 {
            assert(rendered_segment(first) + rendered(more) =~= rendered(more));
            before
        } else {
            if first is Literal {
                lemma_read_escaped(before, first->Literal_0, rendered(more));
            } else {
                lemma_read_placeholder(before, first, rendered(more));
            }
            lemma_expanded_with_segment(before, first, target, remote_command);
            template::with_segment(before, first)
        };
        lemma_read_parts(next, more, target, remote_command);
        let all = template::read(before, rendered(parts))->Ok_0;
        assert(template::expanded(all, target, remote_command) =~= template::expanded(
            before,
            target,
            remote_command,
        ) + substituted(parts, target, remote_command));
        assert forall|needle: SegmentView| !(needle is Literal) implies (
        #[trigger] all.contains(needle) <==> before.contains(needle) || parts.contains(needle)) by {
            assert(next.contains(needle) <==> before.contains(needle) || first == needle);
            if parts.contains(needle) {
                let i = choose|i: int| 0 <= i < parts.len() && parts[i] == needle;
                if i > 0 {
                    assert(more[i - 1] == needle);
                }
            }
            if more.contains(needle) {
                let i = choose|i: int| 0 <= i < more.len() && more[i] == needle;
                assert(parts[i + 1] == needle);
            }
            if first == needle {
                assert(parts[0] == needle);
            }
        }
    }
}

/// Any text, targets and remote commands, written one after the other, are a
/// usable argument. It holds the placeholders that were written, and becomes
/// everything that was written, with the target and the remote command put in.
pub proof fn law_written_argument_becomes_what_was_written(
    parts: Seq<SegmentView>,
    target: Seq<char>,
    remote_command: Seq<char>,
)
    requires
        forall|i: int| 0 <= i < parts.len() ==> #[trigger] parts[i] != SegmentView::SshOptions,
    ensures
        template::argument(rendered(parts)) matches Ok(ArgView::Template(segments)) && {
            &&& template::expanded(segments, target, remote_command) == substituted(
                parts,
                target,
                remote_command,
            )
            &&& ArgView::Template(segments).contains(SegmentView::Target) <==> parts.contains(
                SegmentView::Target,
            )
            &&& ArgView::Template(segments).contains(SegmentView::Command) <==> parts.contains(
                SegmentView::Command,
            )
            &&& template::all_literal(segments) <==> !parts.contains(SegmentView::Target)
                && !parts.contains(SegmentView::Command)
        },
{
    let none = Seq::<SegmentView>::empty();
    lemma_read_parts(none, parts, target, remote_command);
    law_expansion_of_one_segment(Seq::empty(), target, remote_command);
    let read = template::read(none, rendered(parts))->Ok_0;
    let segments = template::template(rendered(parts))->Ok_0;
    assert(template::expanded(none, target, remote_command) + substituted(
        parts,
        target,
        remote_command,
    ) =~= substituted(parts, target, remote_command));
    if read.len() == 0 {
        assert(read =~= none);
        assert(segments[0] is Literal);
    }
    assert(!none.contains(SegmentView::Target));
    assert(!none.contains(SegmentView::Command));
    assert(!none.contains(SegmentView::SshOptions));
    assert(read.contains(SegmentView::SshOptions) <==> parts.contains(SegmentView::SshOptions));
    assert(read.contains(SegmentView::Target) <==> parts.contains(SegmentView::Target));
    assert(read.contains(SegmentView::Command) <==> parts.contains(SegmentView::Command));
    assert(segments.contains(SegmentView::SshOptions) <==> parts.contains(SegmentView::SshOptions));
    assert(segments.contains(SegmentView::Target) <==> parts.contains(SegmentView::Target));
    assert(segments.contains(SegmentView::Command) <==> parts.contains(SegmentView::Command));
    if !template::all_literal(segments) {
        let i = choose|i: int| 0 <= i < segments.len() && !(#[trigger] segments[i] is Literal);
        assert(segments.contains(segments[i]));
    } else {
        if segments.contains(SegmentView::Target) || segments.contains(SegmentView::Command) {
            let i = choose|i: int|
                0 <= i < segments.len() && (segments[i] is Target || segments[i] is Command);
            assert(segments[i] is Literal);
        }
    }
}

/// The message for a faulty argument is the text that an operator can search
/// for: it quotes the argument, or names the placeholder in braces.
pub proof fn law_argument_messages(raw: Seq<char>, name: Seq<char>)
    ensures
        TemplateFault::Unterminated.message(raw) == "unterminated placeholder in "@
            + crate::text::quoted_text(raw) + "; write {{ for a literal brace"@,
        TemplateFault::Unknown(name).message(raw) == "unknown placeholder {"@ + name
            + "}; supported placeholders are {target}, {command}, and {ssh_options} (write {{ for a literal brace)"@,
        TemplateFault::OptionsNotAlone.message(raw)
            == "{ssh_options} expands to a list of options, so it must be an argument of its own"@,
{
}

} // verus!
