//! Planning the expansion of `seek!`: which lanes there are, and what the
//! fields and variables of each are called.

use vstd::prelude::*;
use vstd::string::*;
use vstd::utf8;

use crate::text;

verus! {

/// Why a type list cannot be expanded.
#[derive(Debug)]
pub enum SeekError {
    /// It is not a comma-separated list of paths; this is what the parser said.
    Syntax(String),
    /// It is empty.
    Empty,
    /// The type at position `index` has the lowercase name of an earlier one.
    Duplicate { index: usize },
}

impl SeekError {
    /// The text that is reported for this error.
    pub open spec fn text(self) -> Seq<char> {
        match self {
            SeekError::Syntax(e) => e@,
            SeekError::Empty => "seek! requires at least one message type"@,
            SeekError::Duplicate { .. } =>
                "seek! types must have distinct lowercase channel names"@,
        }
    }

    /// Renders the error.
    pub fn message(&self) -> (message: String)
        ensures
            message@ == self.text(),
    {
        match self {
            SeekError::Syntax(e) => e.clone(),
            SeekError::Empty => "seek! requires at least one message type".to_owned(),
            SeekError::Duplicate { .. } =>
                "seek! types must have distinct lowercase channel names".to_owned(),
        }
    }
}

/// What the names of one lane are for.
pub enum NameKind {
    /// The field of the mailbox that messages come out of.
    Receiver,
    /// The field of the mailbox that messages go into.
    Sender,
    /// The variable for the end that a sending task takes messages from.
    Input,
    /// The variable for the end that a receiving task puts messages into.
    Output,
}

/// The names of one lane.
#[derive(Debug)]
pub struct LaneNames {
    /// The field of the mailbox that messages come out of.
    pub receiver: String,
    /// The field of the mailbox that messages go into.
    pub sender: String,
    /// The variable for the end that the sending task takes messages from.
    pub input: String,
    /// The variable for the end that the receiving task puts messages into.
    pub output: String,
}

/// The lanes of a connection, in the order of its message types.
#[derive(Debug)]
pub struct SeekPlan {
    pub lanes: Vec<LaneNames>,
}

/// The start of a name.
pub open spec fn prefix(kind: NameKind) -> Seq<char> {
    match kind {
        NameKind::Receiver => "from_dude_"@,
        NameKind::Sender => "to_dude_"@,
        NameKind::Input => "__seek_input_"@,
        NameKind::Output => "__seek_output_"@,
    }
}

/// The name of some kind that a lane with this channel name gets.
pub open spec fn lane_name(kind: NameKind, channel: Seq<char>) -> Seq<char> {
    prefix(kind) + channel
}

/// Whether `lane` holds the names of a lane with this channel name.
pub open spec fn named_after(lane: LaneNames, channel: Seq<char>) -> bool {
    &&& lane.receiver@ == lane_name(NameKind::Receiver, channel)
    &&& lane.sender@ == lane_name(NameKind::Sender, channel)
    &&& lane.input@ == lane_name(NameKind::Input, channel)
    &&& lane.output@ == lane_name(NameKind::Output, channel)
}

/// Whether channel name `i` is one of those before it.
pub open spec fn repeats(channels: Seq<Seq<char>>, i: int) -> bool {
    exists|j: int| 0 <= j < i && #[trigger] channels[j] == channels[i]
}

/// The characters of each name.
pub open spec fn name_views(names: Seq<String>) -> Seq<Seq<char>> {
    names.map_values(|name: String| name@)
}

/// Whether `result` is the plan of lanes with these channel names, or tells why
/// there is none.
pub open spec fn plan_outcome(
    channels: Seq<Seq<char>>,
    result: Result<SeekPlan, SeekError>,
) -> bool {
    match result {
        Err(SeekError::Syntax(_)) => false,
        Err(SeekError::Empty) => channels.len() == 0,
        Err(SeekError::Duplicate { index }) => {
            &&& index < channels.len()
            &&& repeats(channels, index as int)
            &&& forall|i: int| 0 <= i < index ==> !repeats(channels, i)
        },
        Ok(plan) => {
            &&& channels.len() > 0
            &&& forall|i: int| 0 <= i < channels.len() ==> !repeats(channels, i)
            &&& plan.lanes@.len() == channels.len()
            &&& forall|i: int|
                0 <= i < channels.len() ==> named_after(#[trigger] plan.lanes@[i], channels[i])
        },
    }
}

/// Plans lanes with these channel names.
pub fn plan_channels(channels: &Vec<String>) -> (result: Result<SeekPlan, SeekError>)
    ensures
        plan_outcome(name_views(channels@), result),
{
    let ghost views = name_views(channels@);
    if channels.len() == 0 {
        return Err(SeekError::Empty);
    }
    let mut lanes: Vec<LaneNames> = Vec::new();
    let mut at: usize = 0;
    while at < channels.len()
        invariant
            views == name_views(channels@),
            at <= channels@.len(),
            lanes@.len() == at,
            forall|i: int| 0 <= i < at ==> !repeats(views, i),
            forall|i: int| 0 <= i < at ==> named_after(#[trigger] lanes@[i], views[i]),
        decreases channels@.len() - at,
    {
        let mut earlier: usize = 0;
        while earlier < at
            invariant
                at < channels@.len(),
                views == name_views(channels@),
                earlier <= at,
                forall|i: int| 0 <= i < at ==> !repeats(views, i),
                forall|i: int| 0 <= i < earlier ==> #[trigger] views[i] != views[at as int],
            decreases at - earlier,
        {
            if channels[earlier] == channels[at] {
                assert(views[earlier as int] == views[at as int]);
                return Err(SeekError::Duplicate { index: at });
            }
            assert(views[earlier as int] != views[at as int]);
            earlier = earlier + 1;
        }
        assert(!repeats(views, at as int));
        let channel = channels[at].as_str();
        let lane = LaneNames {
            receiver: text::joined("from_dude_", channel),
            sender: text::joined("to_dude_", channel),
            input: text::joined("__seek_input_", channel),
            output: text::joined("__seek_output_", channel),
        };
        assert(named_after(lane, views[at as int]));
        lanes.push(lane);
        at = at + 1;
    }
    Ok(SeekPlan { lanes })
}

/// The lowercase equivalent of a text, as `str::to_lowercase` gives it.
pub uninterp spec fn lowercase(text: Seq<char>) -> Seq<char>;

/// The lowercase equivalent of an ASCII character.
pub open spec fn ascii_lowercase(c: char) -> char {
    if 'A' <= c <= 'Z' {
        (c as u8 + 32) as char
    } else {
        c
    }
}

/// Calls `str::to_lowercase`. Its result depends on its argument alone and is
/// what [`lowercase`] names; of an ASCII text it is the text with the letters
/// `A` to `Z` replaced by `a` to `z`.
#[verifier::external_body]
fn to_lowercase(text: &str) -> (lower: String)
    ensures
        lower@ == lowercase(text@),
        utf8::is_ascii_chars(text@) ==> lower@ == text@.map_values(|c: char| ascii_lowercase(c)),
{
    text.to_lowercase()
}

/// The channel name of a type called `name`: its lowercase equivalent.
pub open spec fn channel_name(name: Seq<char>) -> Seq<char> {
    if utf8::is_ascii_chars(name) {
        name.map_values(|c: char| ascii_lowercase(c))
    } else {
        lowercase(name)
    }
}

/// The channel names of types with these names.
pub open spec fn channel_names(names: Seq<Seq<char>>) -> Seq<Seq<char>> {
    names.map_values(|name: Seq<char>| channel_name(name))
}

/// The channel name of a type is the lowercase equivalent of its name.
pub fn channels(names: &Vec<String>) -> (channels: Vec<String>)
    ensures
        name_views(channels@) == channel_names(name_views(names@)),
{
    let mut channels: Vec<String> = Vec::new();
    let mut at: usize = 0;
    while at < names.len()
        invariant
            at <= names@.len(),
            channels@.len() == at,
            forall|i: int| 0 <= i < at ==> (#[trigger] channels@[i])@ == channel_name(names@[i]@),
        decreases names@.len() - at,
    {
        let lower = to_lowercase(names[at].as_str());
        channels.push(lower);
        at = at + 1;
    }
    assert(name_views(channels@) =~= channel_names(name_views(names@)));
    channels
}

/// Plans the lanes of message types with these names, each the last segment of
/// a type's path.
pub fn plan(names: &Vec<String>) -> (result: Result<SeekPlan, SeekError>)
    ensures
        plan_outcome(channel_names(name_views(names@)), result),
{
    plan_channels(&channels(names))
}

/// The characters of each segment of each path.
pub open spec fn path_views(paths: Seq<Vec<String>>) -> Seq<Seq<Seq<char>>> {
    paths.map_values(|path: Vec<String>| name_views(path@))
}

/// The name of the type at the end of each path: its last segment.
pub open spec fn type_names(paths: Seq<Seq<Seq<char>>>) -> Seq<Seq<char>> {
    paths.map_values(|path: Seq<Seq<char>>| path.last())
}

/// Whether every path has a segment.
pub open spec fn have_segments(paths: Seq<Vec<String>>) -> bool {
    forall|i: int| 0 <= i < paths.len() ==> (#[trigger] paths[i])@.len() > 0
}

/// Takes the name of the type at the end of each path.
pub fn last_segments(paths: &Vec<Vec<String>>) -> (names: Vec<String>)
    requires
        have_segments(paths@),
    ensures
        name_views(names@) == type_names(path_views(paths@)),
{
    let mut names: Vec<String> = Vec::new();
    let mut at: usize = 0;
    while at < paths.len()
        invariant
            have_segments(paths@),
            at <= paths@.len(),
            names@.len() == at,
            forall|i: int| 0 <= i < at ==> #[trigger] names@[i] == paths@[i]@.last(),
        decreases paths@.len() - at,
    {
        let path = &paths[at];
        assert(paths@[at as int]@.len() > 0);
        names.push(path[path.len() - 1].clone());
        at = at + 1;
    }
    proof {
        let views = path_views(paths@);
        assert forall|i: int| 0 <= i < names@.len() implies #[trigger] name_views(names@)[i]
            == type_names(views)[i] by {
            assert(names@[i] == paths@[i]@.last());
            assert(views[i] == name_views(paths@[i]@));
            assert(paths@[i]@.len() > 0);
        }
        assert(name_views(names@) =~= type_names(views));
    }
    names
}

/// Whether `c` is a letter, a digit or the underscore of ASCII.
pub open spec fn is_word_char(c: char) -> bool {
    'A' <= c <= 'Z' || 'a' <= c <= 'z' || '0' <= c <= '9' || c == '_'
}

/// Whether `c` is a space, a tab or a line break.
pub open spec fn is_blank_char(c: char) -> bool {
    c == ' ' || c == '\t' || c == '\n' || c == '\r'
}

/// Whether `c` may stand in a plain text.
pub open spec fn is_plain_char(c: char) -> bool {
    is_word_char(c) || is_blank_char(c) || c == ':' || c == ',' || c == '<' || c == '>'
}

/// Whether a word begins with a digit at position `i`.
pub open spec fn number_at(text: Seq<char>, i: int) -> bool {
    &&& 0 <= i < text.len()
    &&& '0' <= text[i] <= '9'
    &&& i == 0 || !is_word_char(text[i - 1])
}

/// Whether a text is made of words of ASCII letters, digits and underscores,
/// blanks, colons, commas and angle brackets only.
pub open spec fn is_worded(text: Seq<char>) -> bool {
    forall|i: int| 0 <= i < text.len() ==> is_plain_char(#[trigger] text[i])
}

/// Whether a text is such a text and no word in it begins with a digit.
pub open spec fn is_plain(text: Seq<char>) -> bool {
    &&& is_worded(text)
    &&& forall|i: int| !#[trigger] number_at(text, i)
}

/// Whether a text is blank.
pub open spec fn is_blank(text: Seq<char>) -> bool {
    forall|i: int| 0 <= i < text.len() ==> is_blank_char(#[trigger] text[i])
}

/// Whether `word` is an underscore or a keyword that is no segment of a path.
pub open spec fn is_reserved(word: Seq<char>) -> bool {
    ||| word == seq!['_']
    ||| word == seq!['a', 'b', 's', 't', 'r', 'a', 'c', 't']
    ||| word == seq!['a', 's']
    ||| word == seq!['a', 's', 'y', 'n', 'c']
    ||| word == seq!['a', 'w', 'a', 'i', 't']
    ||| word == seq!['b', 'e', 'c', 'o', 'm', 'e']
    ||| word == seq!['b', 'o', 'x']
    ||| word == seq!['b', 'r', 'e', 'a', 'k']
    ||| word == seq!['c', 'o', 'n', 's', 't']
    ||| word == seq!['c', 'o', 'n', 't', 'i', 'n', 'u', 'e']
    ||| word == seq!['d', 'o']
    ||| word == seq!['d', 'y', 'n']
    ||| word == seq!['e', 'l', 's', 'e']
    ||| word == seq!['e', 'n', 'u', 'm']
    ||| word == seq!['e', 'x', 't', 'e', 'r', 'n']
    ||| word == seq!['f', 'a', 'l', 's', 'e']
    ||| word == seq!['f', 'i', 'n', 'a', 'l']
    ||| word == seq!['f', 'n']
    ||| word == seq!['f', 'o', 'r']
    ||| word == seq!['i', 'f']
    ||| word == seq!['i', 'm', 'p', 'l']
    ||| word == seq!['i', 'n']
    ||| word == seq!['l', 'e', 't']
    ||| word == seq!['l', 'o', 'o', 'p']
    ||| word == seq!['m', 'a', 'c', 'r', 'o']
    ||| word == seq!['m', 'a', 't', 'c', 'h']
    ||| word == seq!['m', 'o', 'd']
    ||| word == seq!['m', 'o', 'v', 'e']
    ||| word == seq!['m', 'u', 't']
    ||| word == seq!['o', 'v', 'e', 'r', 'r', 'i', 'd', 'e']
    ||| word == seq!['p', 'r', 'i', 'v']
    ||| word == seq!['p', 'u', 'b']
    ||| word == seq!['r', 'e', 'f']
    ||| word == seq!['r', 'e', 't', 'u', 'r', 'n']
    ||| word == seq!['s', 't', 'a', 't', 'i', 'c']
    ||| word == seq!['s', 't', 'r', 'u', 'c', 't']
    ||| word == seq!['t', 'r', 'a', 'i', 't']
    ||| word == seq!['t', 'r', 'u', 'e']
    ||| word == seq!['t', 'r', 'y']
    ||| word == seq!['t', 'y', 'p', 'e']
    ||| word == seq!['t', 'y', 'p', 'e', 'o', 'f']
    ||| word == seq!['u', 'n', 's', 'a', 'f', 'e']
    ||| word == seq!['u', 'n', 's', 'i', 'z', 'e', 'd']
    ||| word == seq!['u', 's', 'e']
    ||| word == seq!['v', 'i', 'r', 't', 'u', 'a', 'l']
    ||| word == seq!['w', 'h', 'e', 'r', 'e']
    ||| word == seq!['w', 'h', 'i', 'l', 'e']
    ||| word == seq!['y', 'i', 'e', 'l', 'd']
}

/// Whether `word` is made of letters, digits and underscores of ASCII, does not
/// begin with a digit, and is not reserved. `Self` and the words for a module's
/// place (`crate`, `self` and `super`) are such words.
pub open spec fn is_segment(word: Seq<char>) -> bool {
    &&& word.len() > 0
    &&& !('0' <= word[0] <= '9')
    &&& forall|i: int| 0 <= i < word.len() ==> is_word_char(#[trigger] word[i])
    &&& !is_reserved(word)
}

/// A path with its segments behind double colons.
pub open spec fn path_text(path: Seq<Seq<char>>) -> Seq<char>
    decreases path.len(),
{
    if path.len() <= 1 {
        path[0]
    } else {
        path[0] + seq![':', ':'] + path_text(path.drop_first())
    }
}

/// A path in a list, and the blanks around it.
pub struct Listed {
    pub before: Seq<char>,
    /// Whether the path begins with a double colon.
    pub global: bool,
    pub path: Seq<Seq<char>>,
    pub after: Seq<char>,
}

impl Listed {
    /// Whether this is a path of segments between blanks.
    pub open spec fn wf(self) -> bool {
        &&& is_blank(self.before)
        &&& is_blank(self.after)
        &&& self.path.len() > 0
        &&& forall|i: int| 0 <= i < self.path.len() ==> is_segment(#[trigger] self.path[i])
    }

    /// How it is written.
    pub open spec fn text(self) -> Seq<char> {
        let colons = if self.global {
            seq![':', ':']
        } else {
            Seq::empty()
        };
        self.before + colons + path_text(self.path) + self.after
    }
}

/// The items of a list, with commas between them.
pub open spec fn list_text(items: Seq<Listed>) -> Seq<char>
    decreases items.len(),
{
    if items.len() == 0 {
        Seq::empty()
    } else if items.len() == 1 {
        items[0].text()
    } else {
        items[0].text() + seq![','] + list_text(items.drop_first())
    }
}

/// Whether `end` may follow a list: nothing, or a comma and blanks; behind an
/// empty list, blanks.
pub open spec fn is_list_end(items: Seq<Listed>, end: Seq<char>) -> bool {
    if items.len() == 0 {
        is_blank(end)
    } else {
        end.len() == 0 || end[0] == ',' && is_blank(end.skip(1))
    }
}

/// Whether `text` is the list of these items, with `end` behind it.
pub open spec fn lists(text: Seq<char>, items: Seq<Listed>, end: Seq<char>) -> bool {
    &&& text == list_text(items) + end
    &&& is_list_end(items, end)
    &&& forall|i: int| 0 <= i < items.len() ==> (#[trigger] items[i]).wf()
}

/// The paths in a list.
pub open spec fn listed_paths(items: Seq<Listed>) -> Seq<Seq<Seq<char>>> {
    items.map_values(|item: Listed| item.path)
}

/// The parse of a list.
pub open spec fn parsed_list(items: Seq<Listed>) -> Result<Seq<Seq<Seq<char>>>, Seq<char>> {
    Ok(listed_paths(items))
}

/// What `syn` makes of a plain type list: the segments of its paths, or the
/// text of an error.
pub uninterp spec fn parsed_paths(text: Seq<char>) -> Result<Seq<Seq<Seq<char>>>, Seq<char>>;

/// The model of a parse: the segments of the paths, or the text of an error.
pub open spec fn parse_view(parsed: Result<Vec<Vec<String>>, String>) -> Result<
    Seq<Seq<Seq<char>>>,
    Seq<char>,
> {
    match parsed {
        Ok(paths) => Ok(path_views(paths@)),
        Err(error) => Err(error@),
    }
}

/// Parses a text with `Parser::parse_str` of `syn`, on its
/// `Punctuated::parse_terminated` for paths and commas, and takes the names of
/// the segments of each path.
///
/// Every path has a segment. For a plain text, and with the features of `syn`
/// that this crate is built with, the result depends on the text alone, and is
/// what [`parsed_paths`] names. A list of simple paths is parsed
/// as those paths. A text of words without angle brackets in which a word
/// begins with a digit is refused. Of other texts nothing more is claimed:
/// inside a running compiler `syn` reads them with the compiler's lexer, and
/// elsewhere with one of its own.
#[verifier::external_body]
fn parse_types(input: &str) -> (parsed: Result<Vec<Vec<String>>, String>)
    ensures
        parsed matches Ok(paths) ==> have_segments(paths@),
        is_plain(input@) ==> parse_view(parsed) == parsed_paths(input@),
        forall|items: Seq<Listed>, end: Seq<char>| #[trigger]
            lists(input@, items, end) ==> parse_view(parsed) == parsed_list(items),
        forall|i: int|
            is_worded(input@) && !input@.contains('<') && #[trigger] number_at(input@, i)
                ==> parsed is Err,
{
    let list = syn::punctuated::Punctuated::<syn::Path, syn::token::Comma>::parse_terminated;
    match syn::parse::Parser::parse_str(list, input) {
        Ok(paths) => Ok(
            paths.iter().map(
                |path| path.segments.iter().map(|segment| segment.ident.to_string()).collect(),
            ).collect(),
        ),
        Err(error) => Err(error.to_string()),
    }
}

/// Whether `result` follows from a type list that was parsed as `parsed`.
pub open spec fn seek_outcome(
    parsed: Result<Seq<Seq<Seq<char>>>, Seq<char>>,
    result: Result<SeekPlan, SeekError>,
) -> bool {
    match parsed {
        Err(error) => result matches Err(SeekError::Syntax(text)) && text@ == error,
        Ok(paths) => plan_outcome(channel_names(type_names(paths)), result),
    }
}

/// Plans the expansion for a type list that was parsed as `parsed`: the segments
/// of each path, or the text of an error.
pub fn plan_parsed(parsed: Result<Vec<Vec<String>>, String>) -> (result: Result<
    SeekPlan,
    SeekError,
>)
    requires
        parsed matches Ok(paths) ==> have_segments(paths@),
    ensures
        seek_outcome(parse_view(parsed), result),
{
    match parsed {
        Err(error) => Err(SeekError::Syntax(error)),
        Ok(paths) => plan(&last_segments(&paths)),
    }
}

/// Plans the expansion of `seek!` for a comma-separated list of types.
pub fn seek(input: &str) -> (result: Result<SeekPlan, SeekError>)
    ensures
        is_plain(input@) ==> seek_outcome(parsed_paths(input@), result),
        forall|items: Seq<Listed>, end: Seq<char>| #[trigger]
            lists(input@, items, end) ==> seek_outcome(parsed_list(items), result),
        forall|i: int|
            is_worded(input@) && !input@.contains('<') && #[trigger] number_at(input@, i)
                ==> result matches Err(SeekError::Syntax(_)),
        exists|parsed: Result<Seq<Seq<Seq<char>>>, Seq<char>>| #[trigger]
            seek_outcome(parsed, result),
{
    plan_parsed(parse_types(input))
}

/// No two names in an expansion collide: two names are the same only if they
/// are of one kind and of one channel name.
pub proof fn law_lane_names_do_not_collide(a: NameKind, x: Seq<char>, b: NameKind, y: Seq<char>)
    requires
        lane_name(a, x) == lane_name(b, y),
    ensures
        a == b,
        x == y,
{
    reveal_strlit("from_dude_");
    reveal_strlit("to_dude_");
    reveal_strlit("__seek_input_");
    reveal_strlit("__seek_output_");
    let s = lane_name(a, x);
    let t = lane_name(b, y);
    assert(s[0] == prefix(a)[0]);
    assert(t[0] == prefix(b)[0]);
    assert(s[7] == t[7]);
    if a is Input || a is Output {
        assert(s[7] == prefix(a)[7]);
        assert(t[7] == prefix(b)[7]);
    }
    let n = prefix(a).len() as int;
    assert(x =~= s.skip(n));
    assert(y =~= t.skip(n));
}

/// In a plan, names of different lanes are different, and so are the names of
/// different kinds of one lane.
pub proof fn law_plan_names_are_distinct(
    channels: Seq<Seq<char>>,
    plan: SeekPlan,
    i: int,
    a: NameKind,
    j: int,
    b: NameKind,
)
    requires
        plan_outcome(channels, Ok(plan)),
        0 <= i < channels.len(),
        0 <= j < channels.len(),
        i != j || a != b,
    ensures
        lane_name(a, channels[i]) != lane_name(b, channels[j]),
{
    if lane_name(a, channels[i]) == lane_name(b, channels[j]) {
        law_lane_names_do_not_collide(a, channels[i], b, channels[j]);
        if i < j {
            assert(repeats(channels, j));
        } else {
            assert(repeats(channels, i));
        }
    }
}

/// A parser's error is told as it was reported, and a repeated name is told in
/// the same words wherever it stands.
pub proof fn law_plan_errors_are_told_plainly(e: String, i: usize, j: usize)
    ensures
        SeekError::Syntax(e).text() == e@,
        (SeekError::Duplicate { index: i }).text() == (SeekError::Duplicate { index: j }).text(),
{
}

/// Whether no two of these names are the same.
pub open spec fn all_distinct(names: Seq<Seq<char>>) -> bool {
    forall|i: int, j: int|
        0 <= i < j < names.len() ==> #[trigger] names[i] != #[trigger] names[j]
}

/// Channel names become lanes if and only if there is one and no two are the
/// same; then there is one lane for each, in their order, and each of its four
/// names is a fixed word and then the whole channel name. An empty list is told
/// as such; else the error points at the first name that came before.
pub proof fn law_channels_become_lanes(
    channels: Seq<Seq<char>>,
    result: Result<SeekPlan, SeekError>,
)
    requires
        plan_outcome(channels, result),
    ensures
        result is Ok <==> channels.len() > 0 && all_distinct(channels),
        result matches Ok(plan) ==> {
            &&& plan.lanes@.len() == channels.len()
            &&& forall|i: int|
                #![trigger plan.lanes@[i]]
                0 <= i < channels.len() ==> {
                    &&& plan.lanes@[i].receiver@ == "from_dude_"@ + channels[i]
                    &&& plan.lanes@[i].sender@ == "to_dude_"@ + channels[i]
                    &&& plan.lanes@[i].input@ == "__seek_input_"@ + channels[i]
                    &&& plan.lanes@[i].output@ == "__seek_output_"@ + channels[i]
                }
        },
        result matches Err(error) ==> match error {
            SeekError::Syntax(_) => false,
            SeekError::Empty => channels.len() == 0,
            SeekError::Duplicate { index } => {
                &&& 0 < index < channels.len()
                &&& all_distinct(channels.take(index as int))
                &&& channels.take(index as int).contains(channels[index as int])
            },
        },
{
    match result {
        Ok(plan) => {
            assert forall|i: int, j: int| 0 <= i < j < channels.len() implies #[trigger] channels[i]
                != #[trigger] channels[j] by {
                assert(!repeats(channels, j));
            }
        },
        Err(SeekError::Duplicate { index }) => {
            let at = index as int;
            let i = choose|i: int| 0 <= i < at && #[trigger] channels[i] == channels[at];
            let earlier = channels.take(at);
            assert(earlier[i] == channels[at]);
            assert forall|i: int, j: int| 0 <= i < j < earlier.len() implies #[trigger] earlier[i]
                != #[trigger] earlier[j] by {
                assert(channels[i] == earlier[i] && channels[j] == earlier[j]);
                assert(!repeats(channels, j));
            }
        },
        _ => {},
    }
}

/// A channel name is as long as the ASCII name that it is made of and has a
/// lowercase letter for each capital one and every other character as it is, so
/// names that differ in case only have the same. Of other names it is what
/// [`lowercase`] names.
pub proof fn law_channel_names_are_lowercase(name: Seq<char>)
    ensures
        !utf8::is_ascii_chars(name) ==> channel_name(name) == lowercase(name),
        utf8::is_ascii_chars(name) ==> {
            &&& channel_name(name).len() == name.len()
            &&& forall|i: int|
                #![trigger channel_name(name)[i]]
                0 <= i < name.len() ==> if 'A' <= name[i] <= 'Z' {
                    channel_name(name)[i] as int - 'a' as int == name[i] as int - 'A' as int
                } else {
                    channel_name(name)[i] == name[i]
                }
        },
{
}

/// Whatever a type list was parsed as, it is planned by the last segments of its
/// paths: each path becomes the lane of its place, called after the channel name
/// of its last segment, unless the list is empty or two of those are the same. A
/// list that could not be parsed is reported with the text of the parser.
pub proof fn law_paths_become_lanes(
    parsed: Result<Seq<Seq<Seq<char>>>, Seq<char>>,
    result: Result<SeekPlan, SeekError>,
)
    requires
        seek_outcome(parsed, result),
    ensures
        parsed matches Err(text) ==> (result matches Err(SeekError::Syntax(e)) && e@ == text),
        parsed matches Ok(paths) ==> {
            let channels = Seq::new(
                paths.len(),
                |i: int| channel_name(paths[i][paths[i].len() - 1]),
            );
            &&& result is Ok <==> paths.len() > 0 && all_distinct(channels)
            &&& !(result matches Err(SeekError::Syntax(_)))
            &&& result matches Ok(plan) ==> {
                &&& plan.lanes@.len() == paths.len()
                &&& forall|i: int|
                    0 <= i < paths.len() ==> (#[trigger] plan.lanes@[i]).sender@ == "to_dude_"@
                        + channels[i]
            }
        },
{
    match parsed {
        Err(_) => {},
        Ok(paths) => {
            let channels = Seq::new(
                paths.len(),
                |i: int| channel_name(paths[i][paths[i].len() - 1]),
            );
            assert(channel_names(type_names(paths)) =~= channels);
            law_channels_become_lanes(channels, result);
        },
    }
}

} // verus!
