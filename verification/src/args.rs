//! What the user asks for: the cards, where the set file goes, how it looks.
use crate::text::{chars_of, same_text, texts};
use vstd::prelude::*;
use vstd::string::StrSliceExecFns;
use vstd::string::StringExecFns;

verus! {

/// What went wrong.
#[derive(Debug)]
pub enum Error {
    /// An argument that was not understood, with the message for the user.
    Args(String),
}

/// Where a set file goes.
#[derive(Debug)]
pub enum Output {
    /// The file at the given path.
    File(String),
    /// The standard output.
    Stdout,
}

/// What an `Output` stands for.
pub enum Target {
    File(Seq<char>),
    Stdout,
}

impl View for Output {
    type V = Target;

    open spec fn view(&self) -> Target {
        match self {
            Output::File(path) => Target::File(path@),
            Output::Stdout => Target::Stdout,
        }
    }
}

/// A color: red, green and blue, and whether nothing shines through it.
#[derive(Debug, Clone, Copy, PartialEq, Eq, Structural)]
pub struct Color {
    pub r: u8,
    pub g: u8,
    pub b: u8,
    pub opaque: bool,
}

impl Color {
    /// Black that nothing shines through.
    pub open spec fn is_black(self) -> bool {
        self.r == 0 && self.g == 0 && self.b == 0 && self.opaque
    }
}

/// The settings of one run.
#[derive(Debug)]
pub struct ArgsRegular {
    pub all_command: bool,
    pub auto_card_numbers: bool,
    pub border_color: Color,
    /// The names of the cards asked for, each once, in the order of their
    /// characters.
    pub cards: Vec<String>,
    pub copyright: String,
    pub output: Output,
    pub planes_output: Option<Output>,
    pub schemes_output: Option<Output>,
    pub set_code: String,
    pub vanguards_output: Option<Output>,
    pub verbose: bool,
}

/// What an `ArgsRegular` stands for.
pub struct Settings {
    pub all_command: bool,
    pub auto_card_numbers: bool,
    pub border_color: Color,
    pub cards: Seq<Seq<char>>,
    pub copyright: Seq<char>,
    pub output: Target,
    pub planes_output: Option<Target>,
    pub schemes_output: Option<Target>,
    pub set_code: Seq<char>,
    pub vanguards_output: Option<Target>,
    pub verbose: bool,
}

/// What an output that may be missing stands for.
pub open spec fn target_of(output: Option<Output>) -> Option<Target> {
    match output {
        Some(output) => Some(output@),
        None => None,
    }
}

impl View for ArgsRegular {
    type V = Settings;

    open spec fn view(&self) -> Settings {
        Settings {
            all_command: self.all_command,
            auto_card_numbers: self.auto_card_numbers,
            border_color: self.border_color,
            cards: texts(self.cards@),
            copyright: self.copyright@,
            output: self.output@,
            planes_output: target_of(self.planes_output),
            schemes_output: target_of(self.schemes_output),
            set_code: self.set_code@,
            vanguards_output: target_of(self.vanguards_output),
            verbose: self.verbose,
        }
    }
}

impl Settings {
    /// The settings of a run without arguments.
    pub open spec fn initial() -> Settings {
        Settings {
            all_command: false,
            auto_card_numbers: false,
            border_color: Color { r: 0, g: 0, b: 0, opaque: true },
            cards: Seq::empty(),
            copyright: "NOT FOR SALE"@,
            output: Target::Stdout,
            planes_output: None,
            schemes_output: None,
            set_code: "PROXY"@,
            vanguards_output: None,
            verbose: false,
        }
    }
}

impl Default for ArgsRegular {
    fn default() -> (res: ArgsRegular)
        ensures
            res@ == Settings::initial(),
    {
        let res = ArgsRegular {
            all_command: false,
            auto_card_numbers: false,
            border_color: Color { r: 0, g: 0, b: 0, opaque: true },
            cards: Vec::new(),
            copyright: String::from_str("NOT FOR SALE"),
            output: Output::Stdout,
            planes_output: None,
            schemes_output: None,
            set_code: String::from_str("PROXY"),
            vanguards_output: None,
            verbose: false,
        };
        assert(res@.cards =~= Seq::empty());
        res
    }
}

/// Whether `a` comes before `b` in the order of their characters: at the
/// first place where they differ `a` has the smaller character, or `a` ends
/// there and `b` goes on.
pub open spec fn text_before(a: Seq<char>, b: Seq<char>) -> bool
    decreases a.len(),
{
    if b.len() == 0 {
        false
    } else if a.len() == 0 {
        true
    } else if a[0] != b[0] {
        a[0] < b[0]
    } else {
        text_before(a.skip(1), b.skip(1))
    }
}

/// The names with `name` among them: at the place that the order gives it,
/// or nowhere anew where it is among them already.
pub open spec fn inserted(names: Seq<Seq<char>>, name: Seq<char>) -> Seq<Seq<char>>
    decreases names.len(),
{
    if names.len() == 0 {
        seq![name]
    } else if names[0] == name {
        names
    } else if text_before(name, names[0]) {
        seq![name] + names
    } else {
        seq![names[0]] + inserted(names.skip(1), name)
    }
}

/// Whether each name comes before all the names behind it.
pub open spec fn ordered(names: Seq<Seq<char>>) -> bool {
    forall|i: int, j: int| 0 <= i < j < names.len() ==> text_before(names[i], names[j])
}

/// No text comes before itself.
pub proof fn lemma_text_before_irreflexive(a: Seq<char>)
    ensures
        !text_before(a, a),
    decreases a.len(),
{
    if a.len() > 0 {
        lemma_text_before_irreflexive(a.skip(1));
    }
}

/// Of two different texts one comes before the other.
pub proof fn lemma_text_before_total(a: Seq<char>, b: Seq<char>)
    ensures
        a == b || text_before(a, b) || text_before(b, a),
        !(text_before(a, b) && text_before(b, a)),
    decreases a.len(),
{
    if a.len() == 0 || b.len() == 0 {
        if a.len() == 0 && b.len() == 0 {
            assert(a =~= b);
        }
    } else if a[0] == b[0] {
        lemma_text_before_total(a.skip(1), b.skip(1));
        if a.skip(1) == b.skip(1) {
            assert(a =~= seq![a[0]] + a.skip(1));
            assert(b =~= seq![b[0]] + b.skip(1));
        }
    }
}

/// What comes before a text comes before all that the text comes before.
pub proof fn lemma_text_before_transitive(a: Seq<char>, b: Seq<char>, c: Seq<char>)
    requires
        text_before(a, b),
        text_before(b, c),
    ensures
        text_before(a, c),
    decreases a.len(),
{
    if a.len() > 0 && a[0] == b[0] && b[0] == c[0] {
        lemma_text_before_transitive(a.skip(1), b.skip(1), c.skip(1));
    }
}

/// A name put among ordered names leaves them ordered, and they are then
/// the names from before and the new one.
pub proof fn lemma_inserted_ordered(names: Seq<Seq<char>>, name: Seq<char>)
    requires
        ordered(names),
    ensures
        ordered(inserted(names, name)),
        forall|other: Seq<char>|
            #[trigger] inserted(names, name).contains(other) <==> (names.contains(other) || other
                == name),
    decreases names.len(),
{
    let after = inserted(names, name);
    if names.len() == 0 {
        assert(after[0] == name);
        assert forall|other: Seq<char>| after.contains(other) implies other == name by {
            let k = choose|k: int| 0 <= k < after.len() && after[k] == other;
        }
    } else if names[0] == name {
        assert(names.contains(name));
    } else if text_before(name, names[0]) {
        assert forall|i: int, j: int| 0 <= i < j < after.len() implies text_before(
            after[i],
            after[j],
        ) by {
            if i == 0 {
                if j > 1 {
                    assert(text_before(names[0], names[j - 1]));
                    lemma_text_before_transitive(name, names[0], names[j - 1]);
                }
            } else {
                assert(text_before(names[i - 1], names[j - 1]));
            }
        }
        assert forall|other: Seq<char>|
            after.contains(other) <==> (names.contains(other) || other == name) by {
            if after.contains(other) {
                let k = choose|k: int| 0 <= k < after.len() && after[k] == other;
                if k > 0 {
                    assert(names[k - 1] == other);
                }
            }
            if names.contains(other) {
                let k = choose|k: int| 0 <= k < names.len() && names[k] == other;
                assert(after[k + 1] == other);
            }
            assert(after[0] == name);
        }
    } else {
        let rest = names.skip(1);
        assert(ordered(rest)) by {
            assert forall|i: int, j: int| 0 <= i < j < rest.len() implies text_before(
                rest[i],
                rest[j],
            ) by {
                assert(text_before(names[i + 1], names[j + 1]));
            }
        }
        lemma_inserted_ordered(rest, name);
        lemma_text_before_total(names[0], name);
        let tail = inserted(rest, name);
        assert forall|i: int, j: int| 0 <= i < j < after.len() implies text_before(
            after[i],
            after[j],
        ) by {
            if i == 0 {
                let other = tail[j - 1];
                assert(tail.contains(other));
                if rest.contains(other) {
                    let k = choose|k: int| 0 <= k < rest.len() && rest[k] == other;
                    assert(text_before(names[0], names[k + 1]));
                }
            } else {
                assert(text_before(tail[i - 1], tail[j - 1]));
            }
        }
        assert forall|other: Seq<char>|
            after.contains(other) <==> (names.contains(other) || other == name) by {
            if after.contains(other) {
                let k = choose|k: int| 0 <= k < after.len() && after[k] == other;
                if k > 0 {
                    assert(tail[k - 1] == other);
                    assert(tail.contains(other));
                    if rest.contains(other) {
                        let m = choose|m: int| 0 <= m < rest.len() && rest[m] == other;
                        assert(names[m + 1] == other);
                    }
                } else {
                    assert(names[0] == other);
                }
            }
            if names.contains(other) {
                let k = choose|k: int| 0 <= k < names.len() && names[k] == other;
                if k == 0 {
                    assert(after[0] == other);
                } else {
                    assert(rest[k - 1] == other);
                    assert(rest.contains(other));
                    assert(tail.contains(other));
                    let m = choose|m: int| 0 <= m < tail.len() && tail[m] == other;
                    assert(after[m + 1] == other);
                }
            }
            if other == name {
                assert(tail.contains(name));
                let m = choose|m: int| 0 <= m < tail.len() && tail[m] == name;
                assert(after[m + 1] == name);
            }
        }
    }
}

/// Whether `a` comes before `b` in the order of their characters.
fn comes_before(a: &Vec<char>, b: &Vec<char>) -> (res: bool)
    ensures
        res == text_before(a@, b@),
{
    let mut i: usize = 0;
    assert(a@.skip(0) =~= a@);
    assert(b@.skip(0) =~= b@);
    while i < a.len() && i < b.len()
        invariant
            i <= a.len(),
            i <= b.len(),
            text_before(a@, b@) == text_before(a@.skip(i as int), b@.skip(i as int)),
        decreases a.len() - i,
    {
        proof {
            assert(a@.skip(i as int)[0] == a@[i as int]);
            assert(b@.skip(i as int)[0] == b@[i as int]);
            assert(a@.skip(i as int).skip(1) =~= a@.skip(i + 1));
            assert(b@.skip(i as int).skip(1) =~= b@.skip(i + 1));
        }
        if a[i] != b[i] {
            return a[i] < b[i];
        }
        i += 1;
    }
    i < b.len()
}

/// Puts `name` among the names, unless it is among them already.
pub fn insert_name(names: &mut Vec<String>, name: String)
    ensures
        texts(final(names)@) == inserted(texts(old(names)@), name@),
{
    let wanted = chars_of(name.as_str());
    let ghost before = texts(names@);
    let mut i: usize = 0;
    assert(before.skip(0) =~= before);
    assert(before.take(0) + inserted(before, name@) =~= inserted(before, name@));
    while i < names.len()
        invariant
            i <= names.len(),
            wanted@ == name@,
            names@ == old(names)@,
            before == texts(names@),
            inserted(before, name@) == before.take(i as int) + inserted(
                before.skip(i as int),
                name@,
            ),
        decreases names.len() - i,
    {
        let here = chars_of(names[i].as_str());
        let ghost rest = before.skip(i as int);
        assert(rest[0] == here@);
        if same_text(names[i].as_str(), name.as_str()) {
            assert(before.take(i as int) + rest =~= before);
            return ;
        }
        if comes_before(&wanted, &here) {
            names.insert(i, name);
            assert(texts(names@) =~= before.take(i as int) + (seq![name@] + rest));
            return ;
        }
        proof {
            assert(rest.skip(1) =~= before.skip(i + 1));
            assert(before.take(i as int) + (seq![rest[0]] + inserted(rest.skip(1), name@))
                =~= before.take(i + 1) + inserted(before.skip(i + 1), name@));
        }
        i += 1;
    }
    assert(before.skip(i as int) =~= Seq::empty());
    assert(before.take(i as int) =~= before);
    names.push(name);
    assert(texts(names@) =~= before + seq![name@]);
}

/// A switch that takes no value.
#[derive(Debug, Clone, Copy, PartialEq, Eq, Structural)]
pub enum Flag {
    Verbose,
}

/// A setting that takes a value.
#[derive(Debug, Clone, Copy, PartialEq, Eq, Structural)]
pub enum Opt {
    Output,
}

impl Flag {
    /// The long name of the flag.
    pub open spec fn name(self) -> Seq<char> {
        match self {
            Flag::Verbose => "verbose"@,
        }
    }

    /// The letter of the flag.
    pub open spec fn letter(self) -> char {
        match self {
            Flag::Verbose => 'v',
        }
    }

    /// The long name of the flag.
    pub fn long(self) -> (res: &'static str)
        ensures
            res@ == self.name(),
    {
        match self {
            Flag::Verbose => "verbose",
        }
    }

    /// The letter of the flag.
    pub fn short(self) -> (res: char)
        ensures
            res == self.letter(),
    {
        match self {
            Flag::Verbose => 'v',
        }
    }
}

impl Opt {
    /// The long name of the setting.
    pub open spec fn name(self) -> Seq<char> {
        match self {
            Opt::Output => "output"@,
        }
    }

    /// The letter of the setting.
    pub open spec fn letter(self) -> char {
        match self {
            Opt::Output => 'o',
        }
    }

    /// The long name of the setting.
    pub fn long(self) -> (res: &'static str)
        ensures
            res@ == self.name(),
    {
        match self {
            Opt::Output => "output",
        }
    }

    /// The letter of the setting.
    pub fn short(self) -> (res: char)
        ensures
            res == self.letter(),
    {
        match self {
            Opt::Output => 'o',
        }
    }
}

/// A name behind two dashes.
pub open spec fn dashed(name: Seq<char>) -> Seq<char> {
    seq!['-', '-'] + name
}

/// The flag that an argument names in full, if any.
pub open spec fn flag_named(arg: Seq<char>) -> Option<Flag> {
    if arg == dashed(Flag::Verbose.name()) {
        Some(Flag::Verbose)
    } else {
        None
    }
}

/// The setting that an argument names in full, if any.
pub open spec fn option_named(arg: Seq<char>) -> Option<Opt> {
    if arg == dashed(Opt::Output.name()) {
        Some(Opt::Output)
    } else {
        None
    }
}

/// The setting that an argument names in full before the character `sep`,
/// with what stands behind that character.
pub open spec fn option_given(arg: Seq<char>, sep: char) -> Option<(Opt, Seq<char>)> {
    let prefix = dashed(Opt::Output.name()).push(sep);
    if arg.len() >= prefix.len() && arg.take(prefix.len() as int) == prefix {
        Some((Opt::Output, arg.skip(prefix.len() as int)))
    } else {
        None
    }
}

/// The flag of a letter, if any.
pub open spec fn flag_lettered(letter: char) -> Option<Flag> {
    if letter == Flag::Verbose.letter() {
        Some(Flag::Verbose)
    } else {
        None
    }
}

/// The setting of a letter, if any.
pub open spec fn option_lettered(letter: char) -> Option<Opt> {
    if letter == Opt::Output.letter() {
        Some(Opt::Output)
    } else {
        None
    }
}

/// Where a path given by the user points: `=` is the standard output, any
/// other text the file of that path.
pub open spec fn target_named(path: Seq<char>) -> Target {
    if path == seq!['='] {
        Target::Stdout
    } else {
        Target::File(path)
    }
}

impl Settings {
    /// The settings with the flag set.
    pub open spec fn with_flag(self, flag: Flag) -> Settings {
        match flag {
            Flag::Verbose => Settings { verbose: true, ..self },
        }
    }

    /// The settings with the value given to the setting.
    pub open spec fn with_option(self, option: Opt, value: Seq<char>) -> Settings {
        match option {
            Opt::Output => Settings { output: target_named(value), ..self },
        }
    }

    /// The settings with one more card asked for.
    pub open spec fn with_card(self, name: Seq<char>) -> Settings {
        Settings { cards: inserted(self.cards, name), ..self }
    }
}

/// Whether the result is the expected one: the same value, or an error with
/// the same message.
pub open spec fn agrees<T>(res: Result<T, Error>, expected: Result<T, Seq<char>>) -> bool {
    match res {
        Ok(value) => expected == Ok::<T, Seq<char>>(value),
        Err(Error::Args(message)) => expected == Err::<T, Seq<char>>(message@),
    }
}

impl Output {
    /// Where a path given by the user points.
    pub fn from_str(s: &str) -> (res: Result<Output, Error>)
        ensures
            res is Ok,
            res.unwrap()@ == target_named(s@),
    {
        proof {
            reveal_strlit("=");
            assert("="@ =~= seq!['=']);
        }
        if same_text(s, "=") {
            Ok(Output::Stdout)
        } else {
            Ok(Output::File(s.to_owned()))
        }
    }
}

/// Sends the set file to where `out_path` points.
pub fn output(args: &mut ArgsRegular, out_path: &str) -> (res: Result<(), Error>)
    ensures
        res is Ok,
        final(args)@ == old(args)@.with_option(Opt::Output, out_path@),
{
    match Output::from_str(out_path) {
        Ok(target) => {
            args.output = target;
            Ok(())
        },
        Err(error) => Err(error),
    }
}

/// Asks for more to be said while the work is done.
pub fn verbose(args: &mut ArgsRegular) -> (res: Result<(), Error>)
    ensures
        res is Ok,
        final(args)@ == old(args)@.with_flag(Flag::Verbose),
{
    args.verbose = true;
    Ok(())
}

/// Sets a flag.
fn set_flag(flag: Flag, args: &mut ArgsRegular) -> (res: Result<(), Error>)
    ensures
        res is Ok,
        final(args)@ == old(args)@.with_flag(flag),
{
    match flag {
        Flag::Verbose => verbose(args),
    }
}

/// Gives a value to a setting.
fn set_option(option: Opt, args: &mut ArgsRegular, value: &str) -> (res: Result<(), Error>)
    ensures
        res is Ok,
        final(args)@ == old(args)@.with_option(option, value@),
{
    match option {
        Opt::Output => output(args, value),
    }
}

/// The name behind two dashes.
fn dashed_name(name: &str) -> (res: String)
    ensures
        res@ == dashed(name@),
{
    proof {
        reveal_strlit("--");
        assert("--"@ =~= seq!['-', '-']);
    }
    let mut out = String::from_str("--");
    out.append(name);
    out
}

/// The characters from the place `from` on, as a string.
fn string_from(chars: &Vec<char>, from: usize) -> (res: String)
    requires
        from <= chars.len(),
    ensures
        res@ == chars@.skip(from as int),
{
    let mut out = String::new();
    let mut i: usize = from;
    while i < chars.len()
        invariant
            from <= i <= chars.len(),
            out@ == chars@.subrange(from as int, i as int),
        decreases chars.len() - i,
    {
        out.push(chars[i]);
        i += 1;
        assert(out@ =~= chars@.subrange(from as int, i as int));
    }
    assert(out@ =~= chars@.skip(from as int));
    out
}

/// A message and the text that it is about.
fn message(about: &str, what: &str) -> (res: Error)
    ensures
        res matches Error::Args(text) && text@ == about@ + what@,
{
    let mut text = String::from_str(about);
    text.append(what);
    Error::Args(text)
}

/// The flag that the argument names in full, if any.
fn find_flag_named(arg: &str) -> (res: Option<Flag>)
    ensures
        res == flag_named(arg@),
{
    if same_text(arg, dashed_name(Flag::Verbose.long()).as_str()) {
        Some(Flag::Verbose)
    } else {
        None
    }
}

/// The setting that the argument names in full, if any.
fn find_option_named(arg: &str) -> (res: Option<Opt>)
    ensures
        res == option_named(arg@),
{
    if same_text(arg, dashed_name(Opt::Output.long()).as_str()) {
        Some(Opt::Output)
    } else {
        None
    }
}

/// The setting that the argument names in full before `sep`, with the value
/// behind it.
fn find_option_given(arg: &str, sep: char) -> (res: Option<(Opt, String)>)
    ensures
        match res {
            Some(found) => option_given(arg@, sep) == Some((found.0, found.1@)),
            None => option_given(arg@, sep).is_none(),
        },
{
    let chars = chars_of(arg);
    let mut prefix = dashed_name(Opt::Output.long());
    prefix.push(sep);
    let wanted = chars_of(prefix.as_str());
    if chars.len() < wanted.len() {
        return None;
    }
    let mut i: usize = 0;
    while i < wanted.len()
        invariant
            i <= wanted.len() <= chars.len(),
            chars@ == arg@,
            wanted@ == dashed(Opt::Output.name()).push(sep),
            chars@.take(i as int) == wanted@.take(i as int),
        decreases wanted.len() - i,
    {
        if chars[i] != wanted[i] {
            assert(chars@.take(wanted@.len() as int)[i as int] != wanted@[i as int]);
            return None;
        }
        assert(chars@.take(i + 1) =~= chars@.take(i as int).push(chars@[i as int]));
        assert(wanted@.take(i + 1) =~= wanted@.take(i as int).push(wanted@[i as int]));
        i += 1;
    }
    assert(wanted@.take(i as int) =~= wanted@);
    Some((Opt::Output, string_from(&chars, wanted.len())))
}

/// The flag of the letter, if any.
fn find_flag_lettered(letter: char) -> (res: Option<Flag>)
    ensures
        res == flag_lettered(letter),
{
    if letter == Flag::Verbose.short() {
        Some(Flag::Verbose)
    } else {
        None
    }
}

/// The setting of the letter, if any.
fn find_option_lettered(letter: char) -> (res: Option<Opt>)
    ensures
        res == option_lettered(letter),
{
    if letter == Opt::Output.short() {
        Some(Opt::Output)
    } else {
        None
    }
}

/// What the letters of a line do to the settings: each flag is set in turn;
/// a setting takes the letters behind it as its value; any other letter
/// fails and leaves the letters behind it unread.
pub open spec fn letters_outcome(args: Settings, letters: Seq<char>) -> (
    Settings,
    Option<Seq<char>>,
)
    decreases letters.len(),
{
    if letters.len() == 0 {
        (args, None)
    } else {
        match flag_lettered(letters[0]) {
            Some(flag) => letters_outcome(args.with_flag(flag), letters.skip(1)),
            None => match option_lettered(letters[0]) {
                Some(option) => (args.with_option(option, letters.skip(1)), None),
                None => (args, Some("unknown option: -"@.push(letters[0]))),
            },
        }
    }
}

/// What one line does to the settings, and the message with which it fails
/// if it does. A line that begins with two dashes is a flag in full, or a
/// setting in full with its value behind a space or an equals sign; a line
/// that begins with one dash holds letters; any other line is the name of a
/// card.
pub open spec fn line_outcome(args: Settings, line: Seq<char>) -> (Settings, Option<Seq<char>>) {
    if line.len() > 0 && line[0] == '-' {
        if line.len() > 1 && line[1] == '-' {
            match flag_named(line) {
                Some(flag) => (args.with_flag(flag), None),
                None => match option_given(line, ' ') {
                    Some(given) => (args.with_option(given.0, given.1), None),
                    None => match option_given(line, '=') {
                        Some(given) => (args.with_option(given.0, given.1), None),
                        None => (args, Some("unknown option in stdin: "@ + line)),
                    },
                },
            }
        } else {
            letters_outcome(args, line.skip(1))
        }
    } else {
        (args.with_card(line), None)
    }
}

/// Whether the result fails with the message, or succeeds where there is none.
pub open spec fn fails_with(res: Result<(), Error>, message: Option<Seq<char>>) -> bool {
    match res {
        Ok(_) => message.is_none(),
        Err(Error::Args(text)) => message == Some(text@),
    }
}

impl ArgsRegular {
    /// Takes one line of the standard input: a card, or arguments.
    #[verifier::loop_isolation(false)]
    pub fn handle_line(&mut self, line: String) -> (res: Result<(), Error>)
        ensures
            final(self)@ == line_outcome(old(self)@, line@).0,
            fails_with(res, line_outcome(old(self)@, line@).1),
    {
        let chars = chars_of(line.as_str());
        if chars.len() > 0 && chars[0] == '-' {
            if chars.len() > 1 && chars[1] == '-' {
                if let Some(flag) = find_flag_named(line.as_str()) {
                    return set_flag(flag, self);
                }
                if let Some(given) = find_option_given(line.as_str(), ' ') {
                    return set_option(given.0, self, given.1.as_str());
                }
                if let Some(given) = find_option_given(line.as_str(), '=') {
                    return set_option(given.0, self, given.1.as_str());
                }
                Err(message("unknown option in stdin: ", line.as_str()))
            } else {
                let mut i: usize = 1;
                while i < chars.len()
                    invariant
                        1 <= i <= chars.len(),
                        letters_outcome(old(self)@, line@.skip(1)) == letters_outcome(
                            self@,
                            line@.skip(i as int),
                        ),
                    decreases chars.len() - i,
                {
                    let short_flag = chars[i];
                    proof {
                        assert(line@.skip(i as int)[0] == short_flag);
                        assert(line@.skip(i as int).skip(1) =~= line@.skip(i + 1));
                    }
                    if let Some(flag) = find_flag_lettered(short_flag) {
                        let _ = set_flag(flag, self);
                    } else if let Some(option) = find_option_lettered(short_flag) {
                        let value = string_from(&chars, i + 1);
                        return set_option(option, self, value.as_str());
                    } else {
                        let mut text = String::from_str("unknown option: -");
                        text.push(short_flag);
                        return Err(Error::Args(text));
                    }
                    i += 1;
                }
                Ok(())
            }
        } else {
            insert_name(&mut self.cards, line);
            Ok(())
        }
    }
}

/// The arguments of the command line that were not read yet, in their order.
#[derive(Debug)]
pub struct RawArgs {
    pub remaining: Vec<String>,
}

impl View for RawArgs {
    type V = Seq<Seq<char>>;

    open spec fn view(&self) -> Seq<Seq<char>> {
        texts(self.remaining@)
    }
}

impl RawArgs {
    /// The given arguments, none of them read.
    pub fn new(remaining: Vec<String>) -> (res: RawArgs)
        ensures
            res@ == texts(remaining@),
    {
        RawArgs { remaining }
    }

    /// Takes the next argument, if one is left.
    pub fn next(&mut self) -> (res: Option<String>)
        ensures
            old(self)@.len() == 0 ==> res.is_none() && final(self)@ == old(self)@,
            old(self)@.len() > 0 ==> res.is_some() && res.unwrap()@ == old(self)@[0],
            old(self)@.len() > 0 ==> final(self)@ == old(self)@.skip(1),
    {
        if self.remaining.len() == 0 {
            None
        } else {
            let first = self.remaining.remove(0);
            assert(self@ =~= old(self)@.skip(1));
            assert(first@ == old(self)@[0]);
            Some(first)
        }
    }
}

/// What became of one letter of an argument.
#[derive(Debug, Clone, Copy, PartialEq, Eq, Structural)]
pub enum HandleShortArgResult {
    /// It was a flag: the next letter is read.
    Continue,
    /// It was a setting, which took the rest of the argument.
    Break,
    /// It is neither a flag nor a setting.
    NoMatch,
}

/// The arguments of one run.
#[derive(Debug)]
pub enum Args {
    Regular(ArgsRegular),
    Help,
    Version,
}

/// What `Args` stands for.
pub enum Request {
    Regular(Settings),
    Help,
    Version,
}

impl View for Args {
    type V = Request;

    open spec fn view(&self) -> Request {
        match self {
            Args::Regular(args) => Request::Regular(args@),
            Args::Help => Request::Help,
            Args::Version => Request::Version,
        }
    }
}

/// What an argument in full does: the settings and the arguments left after
/// it, and whether it was understood. A flag is set. A setting takes its value
/// from behind an equals sign, or is the whole argument and takes the next
/// argument as its value, and fails where none is left.
pub open spec fn long_arg_outcome(arg: Seq<char>, raw: Seq<Seq<char>>, args: Settings) -> (
    Settings,
    Seq<Seq<char>>,
    Result<bool, Seq<char>>,
) {
    match flag_named(arg) {
        Some(flag) => (args.with_flag(flag), raw, Ok(true)),
        None => match option_named(arg) {
            Some(option) => if raw.len() == 0 {
                (args, raw, Err("missing value for option: --"@ + option.name()))
            } else {
                (args.with_option(option, raw[0]), raw.skip(1), Ok(true))
            },
            None => match option_given(arg, '=') {
                Some(given) => (args.with_option(given.0, given.1), raw, Ok(true)),
                None => (args, raw, Ok(false)),
            },
        },
    }
}

/// What one letter of an argument does: the settings and the arguments left
/// after it, and what became of the letter. A flag is set. A setting takes
/// the rest of the argument as its value, or the next argument where nothing
/// is left of this one, and fails where no argument is left either.
pub open spec fn short_arg_outcome(
    letter: char,
    remaining: Seq<char>,
    raw: Seq<Seq<char>>,
    args: Settings,
) -> (Settings, Seq<Seq<char>>, Result<HandleShortArgResult, Seq<char>>) {
    match flag_lettered(letter) {
        Some(flag) => (args.with_flag(flag), raw, Ok(HandleShortArgResult::Continue)),
        None => match option_lettered(letter) {
            Some(option) => if remaining.len() > 0 {
                (args.with_option(option, remaining), raw, Ok(HandleShortArgResult::Break))
            } else if raw.len() == 0 {
                (args, raw, Err("missing value for option: -"@.push(letter)))
            } else {
                (args.with_option(option, raw[0]), raw.skip(1), Ok(HandleShortArgResult::Break))
            },
            None => (args, raw, Ok(HandleShortArgResult::NoMatch)),
        },
    }
}

/// What the letters of an argument do, and then the arguments behind it.
/// A letter that is neither flag nor setting asks for help if it is `h`, and
/// fails if it is not.
pub open spec fn letters_request(letters: Seq<char>, raw: Seq<Seq<char>>, args: Settings)
    -> Result<Request, Seq<char>>
    decreases raw.len(), 1 + letters.len(),
{
    if letters.len() == 0 {
        request(raw, args)
    } else {
        let step = short_arg_outcome(letters[0], letters.skip(1), raw, args);
        match step.2 {
            Err(message) => Err(message),
            Ok(HandleShortArgResult::Continue) => letters_request(letters.skip(1), step.1, step.0),
            Ok(HandleShortArgResult::Break) => request(step.1, step.0),
            Ok(HandleShortArgResult::NoMatch) => if letters[0] == 'h' {
                Ok(Request::Help)
            } else {
                Err("unknown option: -"@.push(letters[0]))
            },
        }
    }
}

/// What the arguments of the command line ask for, read from first to last.
/// One that begins with two dashes is an argument in full, or asks for help
/// or for the version; one that begins with one dash holds letters; any other
/// is the name of a card.
pub open spec fn request(raw: Seq<Seq<char>>, args: Settings) -> Result<Request, Seq<char>>
    decreases raw.len(), 0nat,
{
    if raw.len() == 0 {
        Ok(Request::Regular(args))
    } else {
        let arg = raw[0];
        let rest = raw.skip(1);
        if arg.len() > 0 && arg[0] == '-' {
            if arg.len() > 1 && arg[1] == '-' {
                let step = long_arg_outcome(arg, rest, args);
                match step.2 {
                    Err(message) => Err(message),
                    Ok(understood) => if understood {
                        request(step.1, step.0)
                    } else if arg == "--help"@ {
                        Ok(Request::Help)
                    } else if arg == "--version"@ {
                        Ok(Request::Version)
                    } else {
                        Err("unknown option: "@ + arg)
                    },
                }
            } else {
                letters_request(arg.skip(1), rest, args)
            }
        } else {
            request(rest, args.with_card(arg))
        }
    }
}

/// Whether the result is the expected one: arguments that stand for the
/// expected request, or an error with the expected message.
pub open spec fn answers(res: Result<Args, Error>, expected: Result<Request, Seq<char>>) -> bool {
    match res {
        Ok(found) => expected == Ok::<Request, Seq<char>>(found@),
        Err(Error::Args(text)) => expected == Err::<Request, Seq<char>>(text@),
    }
}

impl Args {
    /// Takes an argument that begins with two dashes, and says whether it was
    /// understood.
    pub fn handle_long_arg(arg: &str, raw_args: &mut RawArgs, args: &mut ArgsRegular) -> (res:
        Result<bool, Error>)
        ensures
            final(args)@ == long_arg_outcome(arg@, old(raw_args)@, old(args)@).0,
            final(raw_args)@ == long_arg_outcome(arg@, old(raw_args)@, old(args)@).1,
            agrees(res, long_arg_outcome(arg@, old(raw_args)@, old(args)@).2),
    {
        if let Some(flag) = find_flag_named(arg) {
            let _ = set_flag(flag, args);
            return Ok(true);
        }
        if let Some(option) = find_option_named(arg) {
            match raw_args.next() {
                Some(value) => {
                    let _ = set_option(option, args, value.as_str());
                    return Ok(true);
                },
                None => {
                    return Err(message("missing value for option: --", option.long()));
                },
            }
        }
        if let Some(given) = find_option_given(arg, '=') {
            let _ = set_option(given.0, args, given.1.as_str());
            return Ok(true);
        }
        Ok(false)
    }

    /// Takes one letter of an argument that begins with one dash;
    /// `remaining_arg` is what stands behind the letter.
    pub fn handle_short_arg(
        short_flag: char,
        remaining_arg: &str,
        raw_args: &mut RawArgs,
        args: &mut ArgsRegular,
    ) -> (res: Result<HandleShortArgResult, Error>)
        ensures
            final(args)@ == short_arg_outcome(
                short_flag,
                remaining_arg@,
                old(raw_args)@,
                old(args)@,
            ).0,
            final(raw_args)@ == short_arg_outcome(
                short_flag,
                remaining_arg@,
                old(raw_args)@,
                old(args)@,
            ).1,
            agrees(
                res,
                short_arg_outcome(short_flag, remaining_arg@, old(raw_args)@, old(args)@).2,
            ),
    {
        if let Some(flag) = find_flag_lettered(short_flag) {
            let _ = set_flag(flag, args);
            return Ok(HandleShortArgResult::Continue);
        }
        if let Some(option) = find_option_lettered(short_flag) {
            if remaining_arg.unicode_len() == 0 {
                match raw_args.next() {
                    Some(value) => {
                        let _ = set_option(option, args, value.as_str());
                    },
                    None => {
                        let mut text = String::from_str("missing value for option: -");
                        text.push(short_flag);
                        return Err(Error::Args(text));
                    },
                }
            } else {
                let _ = set_option(option, args, remaining_arg);
            }
            return Ok(HandleShortArgResult::Break);
        }
        Ok(HandleShortArgResult::NoMatch)
    }

    /// Reads the arguments of the command line.
    #[verifier::loop_isolation(false)]
    pub fn new(raw_args: RawArgs) -> (res: Result<Args, Error>)
        ensures
            answers(res, request(raw_args@, Settings::initial())),
    {
        let ghost wanted = request(raw_args@, Settings::initial());
        let mut raw_args = raw_args;
        let mut args = ArgsRegular::default();
        loop
            invariant
                wanted == request(raw_args@, args@),
            decreases raw_args@.len(),
        {
            let ghost before = raw_args@;
            let arg = match raw_args.next() {
                Some(arg) => arg,
                None => {
                    return Ok(Args::Regular(args));
                },
            };
            let chars = chars_of(arg.as_str());
            if chars.len() > 0 && chars[0] == '-' {
                if chars.len() > 1 && chars[1] == '-' {
                    match Args::handle_long_arg(arg.as_str(), &mut raw_args, &mut args) {
                        Err(error) => {
                            return Err(error);
                        },
                        Ok(understood) => {
                            if !understood {
                                if same_text(arg.as_str(), "--help") {
                                    return Ok(Args::Help);
                                } else if same_text(arg.as_str(), "--version") {
                                    return Ok(Args::Version);
                                } else {
                                    return Err(message("unknown option: ", arg.as_str()));
                                }
                            }
                        },
                    }
                } else {
                    let mut i: usize = 1;
                    let mut taken = false;
                    while !taken && i < chars.len()
                        invariant
                            1 <= i <= chars.len(),
                            raw_args@.len() < before.len(),
                            !taken ==> wanted == letters_request(
                                arg@.skip(i as int),
                                raw_args@,
                                args@,
                            ),
                            taken ==> wanted == request(raw_args@, args@),
                        decreases
                            chars.len() - i,
                            if taken {
                                0nat
                            } else {
                                1nat
                            },
                    {
                        let short_flag = chars[i];
                        proof {
                            assert(arg@.skip(i as int)[0] == short_flag);
                            assert(arg@.skip(i as int).skip(1) =~= arg@.skip(i + 1));
                        }
                        let rest = string_from(&chars, i + 1);
                        match Args::handle_short_arg(
                            short_flag,
                            rest.as_str(),
                            &mut raw_args,
                            &mut args,
                        ) {
                            Err(error) => {
                                return Err(error);
                            },
                            Ok(HandleShortArgResult::Continue) => {
                                i += 1;
                            },
                            Ok(HandleShortArgResult::Break) => {
                                taken = true;
                            },
                            Ok(HandleShortArgResult::NoMatch) => {
                                if short_flag == 'h' {
                                    return Ok(Args::Help);
                                } else {
                                    let mut text = String::from_str("unknown option: -");
                                    text.push(short_flag);
                                    return Err(Error::Args(text));
                                }
                            },
                        }
                    }
                }
            } else {
                insert_name(&mut args.cards, arg);
            }
        }
    }
}

} // verus!
