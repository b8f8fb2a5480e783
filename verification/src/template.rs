//! Argument templates: literal text and placeholders for one argv element.

use vstd::prelude::*;

use crate::text::{chars_of, quoted};

verus! {

/// Names the placeholder that expands to the target.
pub const TARGET_PLACEHOLDER: &'static str = "target";

/// Names the placeholder that expands to the remote command.
pub const COMMAND_PLACEHOLDER: &'static str = "command";

/// Names the placeholder that expands to the managed OpenSSH options.
pub const SSH_OPTIONS_PLACEHOLDER: &'static str = "ssh_options";

/// One part of a template.
#[derive(Debug, Eq)]
pub enum Segment {
    /// Text that stands for itself.
    Literal(String),
    /// The target.
    Target,
    /// The remote command.
    Command,
    /// The managed OpenSSH options.
    SshOptions,
}

/// What a [`Segment`] holds.
pub enum SegmentView {
    Literal(Seq<char>),
    Target,
    Command,
    SshOptions,
}

impl View for Segment {
    type V = SegmentView;

    open spec fn view(&self) -> SegmentView {
        match self {
            Segment::Literal(text) => SegmentView::Literal(text@),
            Segment::Target => SegmentView::Target,
            Segment::Command => SegmentView::Command,
            Segment::SshOptions => SegmentView::SshOptions,
        }
    }
}

impl PartialEq for Segment {
    fn eq(&self, other: &Self) -> (result: bool) {
        match (self, other) {
            (Segment::Literal(left), Segment::Literal(right)) => *left == *right,
            (Segment::Target, Segment::Target) => true,
            (Segment::Command, Segment::Command) => true,
            (Segment::SshOptions, Segment::SshOptions) => true,
            _ => false,
        }
    }
}

impl vstd::std_specs::cmp::PartialEqSpecImpl for Segment {
    open spec fn obeys_eq_spec() -> bool {
        true
    }

    open spec fn eq_spec(&self, other: &Self) -> bool {
        self@ == other@
    }
}

impl Clone for Segment {
    fn clone(&self) -> (result: Self)
        ensures
            result == *self,
    {
        match self {
            Segment::Literal(text) => Segment::Literal(text.clone()),
            Segment::Target => Segment::Target,
            Segment::Command => Segment::Command,
            Segment::SshOptions => Segment::SshOptions,
        }
    }
}

/// The segment that a placeholder's name stands for.
pub open spec fn placeholder(name: Seq<char>) -> Option<SegmentView> {
    if name == TARGET_PLACEHOLDER@ {
        Some(SegmentView::Target)
    } else if name == COMMAND_PLACEHOLDER@ {
        Some(SegmentView::Command)
    } else if name == SSH_OPTIONS_PLACEHOLDER@ {
        Some(SegmentView::SshOptions)
    } else {
        None
    }
}

/// The message for text, given in quoted form, with an unclosed placeholder.
pub open spec fn unterminated_message(quoted_raw: Seq<char>) -> Seq<char> {
    "unterminated placeholder in "@ + quoted_raw + "; write {{ for a literal brace"@
}

/// Why text is not a usable argument.
pub enum TemplateFault {
    /// An opening brace has no closing brace after it.
    Unterminated,
    /// A placeholder has this name, which stands for nothing.
    Unknown(Seq<char>),
    /// The OpenSSH options share an argument with something else.
    OptionsNotAlone,
}

impl TemplateFault {
    /// The message for this fault in the text `raw`.
    pub open spec fn message(self, raw: Seq<char>) -> Seq<char> {
        match self {
            TemplateFault::Unterminated => unterminated_message(crate::text::quoted_text(raw)),
            TemplateFault::Unknown(name) => "unknown placeholder {"@ + name
                + "}; supported placeholders are {target}, {command}, and {ssh_options} (write {{ for a literal brace)"@,
            TemplateFault::OptionsNotAlone =>
                "{ssh_options} expands to a list of options, so it must be an argument of its own"@,
        }
    }
}

/// Both braces are special in a template.
pub open spec fn is_brace(c: char) -> bool {
    c == '{' || c == '}'
}

/// How many characters stand before the first closing brace, or before the end
/// where there is none.
pub open spec fn before_close(text: Seq<char>) -> nat
    decreases text.len(),
{
    if text.len() == 0 || text[0] == '}' {
        0
    } else {
        1 + before_close(text.skip(1))
    }
}

/// What non-empty text begins with, and how many characters that takes: a
/// doubled brace for the brace itself, a placeholder, or a character that
/// stands for itself, as a closing brace without an opening one does.
pub open spec fn first_piece(text: Seq<char>) -> Result<(SegmentView, nat), TemplateFault> {
    if text.len() > 1 && is_brace(text[0]) && text[1] == text[0] {
        Ok((SegmentView::Literal(seq![text[0]]), 2))
    } else if text[0] == '{' {
        let close = 1 + before_close(text.skip(1));
        let name = text.subrange(1, close as int);
        if close >= text.len() {
            Err(TemplateFault::Unterminated)
        } else {
            match placeholder(name) {
                Some(segment) => Ok((segment, close + 1)),
                None => Err(TemplateFault::Unknown(name)),
            }
        }
    } else {
        Ok((SegmentView::Literal(seq![text[0]]), 1))
    }
}

/// `segments` with one more at the end, where text after text is one literal.
pub open spec fn with_segment(segments: Seq<SegmentView>, next: SegmentView) -> Seq<SegmentView> {
    match next {
        SegmentView::Literal(text) if segments.len() > 0 && segments.last() is Literal =>
            segments.drop_last().push(SegmentView::Literal(segments.last()->Literal_0 + text)),
        _ => segments.push(next),
    }
}

/// `segments` followed by what `text` holds, piece by piece.
pub open spec fn read(segments: Seq<SegmentView>, text: Seq<char>) -> Result<
    Seq<SegmentView>,
    TemplateFault,
>
    decreases text.len(),
{
    if text.len() == 0 {
        Ok(segments)
    } else {
        match first_piece(text) {
            Ok((piece, taken)) => read(with_segment(segments, piece), text.skip(taken as int)),
            Err(fault) => Err(fault),
        }
    }
}

/// The segments that `raw` stands for. Empty text is one empty literal.
pub open spec fn template(raw: Seq<char>) -> Result<Seq<SegmentView>, TemplateFault> {
    match read(Seq::empty(), raw) {
        Ok(segments) if segments.len() == 0 => Ok(
            seq![SegmentView::Literal(Seq::empty())],
        ),
        outcome => outcome,
    }
}

/// Whether segments are in the form that parsing gives: at least one, no
/// literal after a literal, and an empty literal only where nothing else is.
pub open spec fn canonical(segments: Seq<SegmentView>) -> bool {
    &&& segments.len() > 0
    &&& segments == seq![SegmentView::Literal(Seq::empty())] || mergeable(segments)
}

/// No literal after a literal, and no empty literal.
pub open spec fn mergeable(segments: Seq<SegmentView>) -> bool {
    &&& forall|i: int, j: int|
        #![trigger segments[i], segments[j]]
        0 <= i < segments.len() && j == i + 1 && j < segments.len() && segments[i] is Literal
            ==> !(segments[j] is Literal)
    &&& forall|i: int|
        #![trigger segments[i]]
        0 <= i < segments.len() && segments[i] is Literal ==> segments[i]->Literal_0.len() > 0
}

/// Each piece takes at least one character and no more than there are.
proof fn lemma_piece_taken(text: Seq<char>)
    requires
        text.len() > 0,
    ensures
        first_piece(text) matches Ok((piece, taken)) ==> 0 < taken <= text.len() && (
        piece matches SegmentView::Literal(literal) ==> literal.len() == 1),
{
}

/// Reading keeps segments mergeable.
proof fn lemma_read_mergeable(segments: Seq<SegmentView>, text: Seq<char>)
    requires
        mergeable(segments),
    ensures
        read(segments, text) matches Ok(all) ==> mergeable(all) && all.len() >= segments.len() && (
        text.len() > 0 ==> all.len() > 0),
    decreases text.len(),
{
    if text.len() > 0 {
        lemma_piece_taken(text);
        if let Ok((piece, taken)) = first_piece(text) {
            lemma_read_mergeable(with_segment(segments, piece), text.skip(taken as int));
        }
    }
}

/// Parsing gives canonical segments, whatever the text.
pub proof fn law_template_is_canonical(raw: Seq<char>)
    ensures
        template(raw) matches Ok(segments) ==> canonical(segments),
{
    lemma_read_mergeable(Seq::empty(), raw);
}

/// Text that stands for itself reads as one literal.
proof fn lemma_read_plain(segments: Seq<SegmentView>, text: Seq<char>, count: nat)
    requires
        0 < count <= text.len(),
        forall|i: int| 0 <= i < count ==> !is_brace(#[trigger] text[i]),
    ensures
        read(segments, text) == read(
            with_segment(segments, SegmentView::Literal(text.take(count as int))),
            text.skip(count as int),
        ),
    decreases count,
{
    let first = SegmentView::Literal(seq![text[0]]);
    assert(first_piece(text) == Ok::<(SegmentView, nat), TemplateFault>((first, 1)));
    if count == 1 {
        assert(text.take(1) =~= seq![text[0]]);
    } else {
        let rest = text.skip(1);
        let less = (count - 1) as nat;
        assert forall|i: int| 0 <= i < less implies !is_brace(#[trigger] rest[i]) by {
            assert(rest[i] == text[i + 1]);
        }
        lemma_read_plain(with_segment(segments, first), rest, less);
        assert(rest.skip(less as int) =~= text.skip(count as int));
        assert(seq![text[0]] + rest.take(less as int) =~= text.take(count as int));
        lemma_with_segment_twice(segments, seq![text[0]], rest.take(less as int));
    }
}

/// Adding text twice is adding it once.
pub(crate) proof fn lemma_with_segment_twice(segments: Seq<SegmentView>, first: Seq<char>, second: Seq<char>)
    ensures
        with_segment(
            with_segment(segments, SegmentView::Literal(first)),
            SegmentView::Literal(second),
        ) == with_segment(segments, SegmentView::Literal(first + second)),
{
    let once = with_segment(segments, SegmentView::Literal(first));
    let twice = with_segment(once, SegmentView::Literal(second));
    let both = with_segment(segments, SegmentView::Literal(first + second));
    if segments.len() > 0 && segments.last() is Literal {
        let text = segments.last()->Literal_0;
        assert(text + first + second =~= text + (first + second));
    }
    assert(twice =~= both);
}

/// How far the text before the first closing brace goes.
pub(crate) proof fn lemma_before_close(text: Seq<char>, count: nat)
    requires
        count <= text.len(),
        forall|i: int| 0 <= i < count ==> #[trigger] text[i] != '}',
        count < text.len() ==> text[count as int] == '}',
    ensures
        before_close(text) == count,
    decreases count,
{
    if count > 0 {
        let rest = text.skip(1);
        assert forall|i: int| 0 <= i < count - 1 implies #[trigger] rest[i] != '}' by {
            assert(rest[i] == text[i + 1]);
        }
        lemma_before_close(rest, (count - 1) as nat);
    }
}

/// The segments read so far, where `literal` is text not yet made a segment.
spec fn pending(segments: Seq<SegmentView>, literal: Seq<char>) -> Seq<SegmentView> {
    if literal.len() == 0 {
        segments
    } else {
        segments.push(SegmentView::Literal(literal))
    }
}

/// Text goes to the end of the text not yet made a segment.
proof fn lemma_pending(segments: Seq<SegmentView>, literal: Seq<char>, text: Seq<char>)
    requires
        segments.len() > 0 ==> !(segments.last() is Literal),
        text.len() > 0,
    ensures
        with_segment(pending(segments, literal), SegmentView::Literal(text)) == pending(
            segments,
            literal + text,
        ),
{
    assert(literal.len() == 0 ==> literal + text =~= text);
    assert(with_segment(pending(segments, literal), SegmentView::Literal(text)) =~= pending(
        segments,
        literal + text,
    ));
}

/// What a list of segments holds.
pub open spec fn segments_view(segments: Seq<Segment>) -> Seq<SegmentView> {
    segments.map_values(|segment: Segment| segment@)
}

/// The segment that a placeholder's name stands for.
fn placeholder_segment(name: &str) -> (result: Option<Segment>)
    ensures
        match placeholder(name@) {
            Some(segment) => result matches Some(found) && found@ == segment,
            None => result is None,
        },
{
    let name = name.to_owned();
    if name == TARGET_PLACEHOLDER.to_owned() {
        Some(Segment::Target)
    } else if name == COMMAND_PLACEHOLDER.to_owned() {
        Some(Segment::Command)
    } else if name == SSH_OPTIONS_PLACEHOLDER.to_owned() {
        Some(Segment::SshOptions)
    } else {
        None
    }
}

/// The message for text, given in quoted form, with an unclosed placeholder.
pub fn unterminated_placeholder(quoted_raw: &str) -> (result: String)
    ensures
        result@ == unterminated_message(quoted_raw@),
{
    let mut message = "unterminated placeholder in ".to_owned();
    message.append(quoted_raw);
    message.append("; write {{ for a literal brace");
    message
}

/// Where the first brace at or after `from` stands, or the end.
fn find_brace(chars: &Vec<char>, from: usize) -> (result: usize)
    requires
        from <= chars@.len(),
    ensures
        from <= result <= chars@.len(),
        forall|i: int| from <= i < result ==> !is_brace(#[trigger] chars@[i]),
        result < chars@.len() ==> is_brace(chars@[result as int]),
{
    let mut at: usize = from;
    while at < chars.len() && chars[at] != '{' && chars[at] != '}'
        invariant
            from <= at <= chars@.len(),
            forall|i: int| from <= i < at ==> !is_brace(#[trigger] chars@[i]),
        decreases chars@.len() - at,
    {
        at = at + 1;
    }
    at
}

/// Where the first closing brace at or after `from` stands, or the end.
fn find_close(chars: &Vec<char>, from: usize) -> (result: usize)
    requires
        from <= chars@.len(),
    ensures
        result == from + before_close(chars@.skip(from as int)),
        result <= chars@.len(),
        result < chars@.len() ==> chars@[result as int] == '}',
{
    let mut at: usize = from;
    while at < chars.len() && chars[at] != '}'
        invariant
            from <= at <= chars@.len(),
            forall|i: int| from <= i < at ==> #[trigger] chars@[i] != '}',
        decreases chars@.len() - at,
    {
        at = at + 1;
    }
    proof {
        let text = chars@.skip(from as int);
        assert forall|i: int| 0 <= i < at - from implies #[trigger] text[i] != '}' by {
            assert(text[i] == chars@[from + i]);
        }
        lemma_before_close(text, (at - from) as nat);
    }
    at
}

/// Text and placeholders for one argv element. Expansion never splits it into
/// more than one element, whatever the target or the remote command contain.
#[derive(Debug, PartialEq, Eq)]
pub struct ArgTemplate(Vec<Segment>);

impl View for ArgTemplate {
    type V = Seq<SegmentView>;

    closed spec fn view(&self) -> Seq<SegmentView> {
        segments_view(self.0@)
    }
}

impl ArgTemplate {
    #[verifier::type_invariant]
    spec fn is_canonical(self) -> bool {
        canonical(self@)
    }

    /// The template that `raw` stands for, or why there is none.
    pub fn parse(raw: &str) -> (result: Result<Self, String>)
        ensures
            match template(raw@) {
                Ok(segments) => result matches Ok(parsed) && parsed@ == segments,
                Err(fault) => result matches Err(message) && message@ == fault.message(raw@),
            },
    {
        let chars = chars_of(raw);
        let mut segments: Vec<Segment> = Vec::new();
        let mut literal = String::new();
        let mut at: usize = 0;
        assert(raw@.skip(0) =~= raw@);
        assert(segments_view(segments@) =~= Seq::empty());
        while at < chars.len()
            invariant
                chars@ == raw@,
                at <= raw@.len(),
                segments@.len() > 0 ==> !(segments@.last() is Literal),
                read(Seq::empty(), raw@) == read(
                    pending(segments_view(segments@), literal@),
                    raw@.skip(at as int),
                ),
            decreases raw@.len() - at,
        {
            let ghost rest = raw@.skip(at as int);
            let ghost before = segments_view(segments@);
            let ghost text = literal@;
            let open = find_brace(&chars, at);
            if open > at {
                literal.append(raw.substring_char(at, open));
                proof {
                    let count = (open - at) as nat;
                    assert forall|i: int| 0 <= i < count implies !is_brace(#[trigger] rest[i]) by {
                        assert(rest[i] == chars@[at + i]);
                    }
                    lemma_read_plain(pending(before, text), rest, count);
                    assert(rest.take(count as int) =~= raw@.subrange(at as int, open as int));
                    assert(rest.skip(count as int) =~= raw@.skip(open as int));
                    lemma_pending(before, text, rest.take(count as int));
                }
                at = open;
                continue;
            }
            let brace = chars[at];
            if at + 1 < chars.len() && chars[at + 1] == brace {
                literal.append(raw.substring_char(at, at + 1));
                proof {
                    assert(raw@.subrange(at as int, at + 1) =~= seq![brace]);
                    assert(rest.skip(2) =~= raw@.skip(at + 2));
                    lemma_pending(before, text, seq![brace]);
                }
                at = at + 2;
                continue;
            }
            if brace == '}' {
                literal.append("}");
                proof {
                    reveal_strlit("}");
                    assert("}"@ =~= seq!['}']);
                    assert(rest.skip(1) =~= raw@.skip(at + 1));
                    lemma_pending(before, text, seq!['}']);
                }
                at = at + 1;
                continue;
            }
            let end = find_close(&chars, at + 1);
            assert(rest.skip(1) =~= raw@.skip(at + 1));
            if end == chars.len() {
                return Err(unterminated_placeholder(quoted(raw).as_str()));
            }
            let name = raw.substring_char(at + 1, end);
            assert(rest.subrange(1, end - at) =~= name@);
            match placeholder_segment(name) {
                None => {
                    let mut message = "unknown placeholder {".to_owned();
                    message.append(name);
                    message.append(
                        "}; supported placeholders are {target}, {command}, and {ssh_options} (write {{ for a literal brace)",
                    );
                    return Err(message);
                },
                Some(segment) => {
                    if !literal.as_str().is_empty() {
                        segments.push(Segment::Literal(literal));
                        literal = String::new();
                    }
                    segments.push(segment);
                    proof {
                        assert(segments_view(segments@) =~= pending(before, text).push(segment@));
                        assert(rest.skip(end - at + 1) =~= raw@.skip(end + 1));
                    }
                    at = end + 1;
                },
            }
        }
        let ghost before = segments_view(segments@);
        let ghost text = literal@;
        if !literal.as_str().is_empty() || segments.len() == 0 {
            segments.push(Segment::Literal(literal));
            assert(segments_view(segments@) =~= before.push(SegmentView::Literal(text)));
        }
        proof {
            law_template_is_canonical(raw@);
            if before.len() == 0 && text.len() == 0 {
                assert(text =~= Seq::empty());
                assert(segments_view(segments@) =~= seq![SegmentView::Literal(Seq::empty())]);
            }
        }
        Ok(ArgTemplate(segments))
    }

    /// Whether the template has no placeholder.
    pub fn is_literal(&self) -> (result: bool)
        ensures
            result == all_literal(self@),
    {
        let mut at: usize = 0;
        while at < self.0.len()
            invariant
                at <= self.0@.len(),
                forall|i: int| 0 <= i < at ==> #[trigger] self@[i] is Literal,
            decreases self.0@.len() - at,
        {
            match &self.0[at] {
                Segment::Literal(_) => {},
                _ => {
                    assert(!(self@[at as int] is Literal));
                    return false;
                },
            }
            at = at + 1;
        }
        true
    }

    /// Whether `needle` is one of the segments.
    pub fn contains(&self, needle: &Segment) -> (result: bool)
        ensures
            result == self@.contains(needle@),
    {
        let mut at: usize = 0;
        while at < self.0.len()
            invariant
                at <= self.0@.len(),
                forall|i: int| 0 <= i < at ==> #[trigger] self@[i] != needle@,
            decreases self.0@.len() - at,
        {
            if self.0[at] == *needle {
                assert(self@[at as int] == needle@);
                return true;
            }
            at = at + 1;
        }
        false
    }

    /// The one argv element that the template gives for `target` and
    /// `remote_command`, both taken as they are.
    pub fn expand(&self, target: &str, remote_command: &str) -> (result: String)
        ensures
            result@ == expanded(self@, target@, remote_command@),
    {
        let mut text = String::new();
        let mut at: usize = 0;
        assert(self@.take(0) =~= Seq::empty());
        while at < self.0.len()
            invariant
                at <= self.0@.len(),
                text@ == expanded(self@.take(at as int), target@, remote_command@),
            decreases self.0@.len() - at,
        {
            match &self.0[at] {
                Segment::Literal(literal) => text.append(literal.as_str()),
                Segment::Target => text.append(target),
                Segment::Command => text.append(remote_command),
                // `Arg::parse` makes a lone `{ssh_options}` an `Arg::SshOptions`
                // and rejects it anywhere else.
                Segment::SshOptions => {},
            }
            assert(self@.take(at + 1).drop_last() =~= self@.take(at as int));
            assert(self@.take(at + 1).last() == self.0@[at as int]@);
            assert(text@ =~= expanded(self@.take(at + 1), target@, remote_command@));
            at = at + 1;
        }
        assert(self@.take(at as int) =~= self@);
        text
    }
}

impl Clone for ArgTemplate {
    fn clone(&self) -> (result: Self)
        ensures
            result@ == self@,
    {
        proof {
            use_type_invariant(self);
        }
        let segments = self.0.clone();
        assert(segments@ =~= self.0@);
        ArgTemplate(segments)
    }
}

/// Whether no segment is a placeholder.
pub open spec fn all_literal(segments: Seq<SegmentView>) -> bool {
    forall|i: int| 0 <= i < segments.len() ==> #[trigger] segments[i] is Literal
}

/// What one segment becomes. The OpenSSH options are no text.
pub open spec fn segment_text(
    segment: SegmentView,
    target: Seq<char>,
    remote_command: Seq<char>,
) -> Seq<char> {
    match segment {
        SegmentView::Literal(text) => text,
        SegmentView::Target => target,
        SegmentView::Command => remote_command,
        SegmentView::SshOptions => Seq::empty(),
    }
}

/// What segments become, one after the other.
pub open spec fn expanded(
    segments: Seq<SegmentView>,
    target: Seq<char>,
    remote_command: Seq<char>,
) -> Seq<char>
    decreases segments.len(),
{
    if segments.len() == 0 {
        Seq::empty()
    } else {
        expanded(segments.drop_last(), target, remote_command) + segment_text(
            segments.last(),
            target,
            remote_command,
        )
    }
}

/// One configured argument.
#[derive(Debug, PartialEq, Eq)]
pub enum Arg {
    /// Text and placeholders that always expand to exactly one argv element.
    Template(ArgTemplate),
    /// The managed OpenSSH options of one call: zero or more argv elements.
    SshOptions,
}

/// What an [`Arg`] holds.
pub enum ArgView {
    Template(Seq<SegmentView>),
    SshOptions,
}

impl View for Arg {
    type V = ArgView;

    open spec fn view(&self) -> ArgView {
        match self {
            Arg::Template(template) => ArgView::Template(template@),
            Arg::SshOptions => ArgView::SshOptions,
        }
    }
}

impl ArgView {
    /// Whether parsing can give this argument.
    pub open spec fn wf(self) -> bool {
        match self {
            ArgView::Template(segments) => canonical(segments) && !segments.contains(
                SegmentView::SshOptions,
            ),
            ArgView::SshOptions => true,
        }
    }

    /// Whether the argument holds this segment.
    pub open spec fn contains(self, needle: SegmentView) -> bool {
        match self {
            ArgView::Template(segments) => segments.contains(needle),
            ArgView::SshOptions => needle is SshOptions,
        }
    }
}

/// The argument that `raw` stands for: the OpenSSH options where they are all
/// there is, and otherwise a template without them.
pub open spec fn argument(raw: Seq<char>) -> Result<ArgView, TemplateFault> {
    match template(raw) {
        Ok(segments) => if !segments.contains(SegmentView::SshOptions) {
            Ok(ArgView::Template(segments))
        } else if segments.len() == 1 {
            Ok(ArgView::SshOptions)
        } else {
            Err(TemplateFault::OptionsNotAlone)
        },
        Err(fault) => Err(fault),
    }
}

impl Arg {
    /// The argument that `raw` stands for, or why there is none.
    pub fn parse(raw: &str) -> (result: Result<Self, String>)
        ensures
            match argument(raw@) {
                Ok(arg) => result matches Ok(parsed) && parsed@ == arg && arg.wf(),
                Err(fault) => result matches Err(message) && message@ == fault.message(raw@),
            },
    {
        proof {
            law_template_is_canonical(raw@);
        }
        let template = match ArgTemplate::parse(raw) {
            Ok(template) => template,
            Err(message) => return Err(message),
        };
        if template.contains(&Segment::SshOptions) {
            if template.0.len() == 1 {
                return Ok(Arg::SshOptions);
            }
            return Err(
                "{ssh_options} expands to a list of options, so it must be an argument of its own".to_owned(),
            );
        }
        Ok(Arg::Template(template))
    }

    /// Whether `needle` is in the argument.
    pub fn contains(&self, needle: &Segment) -> (result: bool)
        ensures
            result == self@.contains(needle@),
    {
        match self {
            Arg::Template(template) => template.contains(needle),
            Arg::SshOptions => matches!(needle, Segment::SshOptions),
        }
    }
}

impl Clone for Arg {
    fn clone(&self) -> (result: Self)
        ensures
            result@ == self@,
    {
        match self {
            Arg::Template(template) => Arg::Template(template.clone()),
            Arg::SshOptions => Arg::SshOptions,
        }
    }
}

} // verus!
