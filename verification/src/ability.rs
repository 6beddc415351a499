//! The rule text of a card: its abilities as display lines.
use crate::text::{append_texts, capitalized, decimal, decimal_string, push_text, texts, to_uppercase_first};
use vstd::prelude::*;
use vstd::string::StringExecFns;

verus! {

/// One ability of a card.
#[derive(Debug)]
pub enum Ability {
    /// A keyword, by its name.
    Keyword(String),
    /// Any other ability, by its text.
    Other(String),
    /// A choice between modes.
    Modal { choose: String, modes: Vec<String> },
    /// A chapter of a saga, by its text.
    Chapter { text: String },
    /// One level of a leveler, with the abilities that it grants.
    Level { min: u64, max: Option<u64>, power: u64, toughness: u64, abilities: Vec<Ability> },
}

/// The lines made so far and the keyword line that is still open.
pub struct Progress {
    pub lines: Seq<Seq<char>>,
    pub pending: Option<Seq<char>>,
}

impl Progress {
    /// The lines, with the open keyword line closed if there is one.
    pub open spec fn flushed(self) -> Seq<Seq<char>> {
        match self.pending {
            Some(keywords) => self.lines.push(keywords),
            None => self.lines,
        }
    }
}

/// The tag of a level range: `{LEVEL min-max}`, or `{LEVEL min+}` without an
/// upper end.
pub open spec fn level_tag(min: u64, max: Option<u64>) -> Seq<char> {
    match max {
        Some(max) => "{LEVEL "@ + decimal(min as nat) + "-"@ + decimal(max as nat) + "}"@,
        None => "{LEVEL "@ + decimal(min as nat) + "+}"@,
    }
}

/// Power and toughness with a slash between them.
pub open spec fn level_stats(power: u64, toughness: u64) -> Seq<char> {
    decimal(power as nat) + "/"@ + decimal(toughness as nat)
}

/// Each mode behind a bullet.
pub open spec fn bulleted(modes: Seq<Seq<char>>) -> Seq<Seq<char>> {
    Seq::new(modes.len(), |i: int| "• "@ + modes[i])
}

/// The lines of an ability that is no keyword.
pub open spec fn own_lines(ability: Ability) -> Seq<Seq<char>>
    decreases ability,
{
    match ability {
        Ability::Keyword(_) => Seq::empty(),
        Ability::Other(text) => seq![text@],
        Ability::Modal { choose, modes } => seq![choose@] + bulleted(texts(modes@)),
        Ability::Chapter { text } => seq![text@],
        Ability::Level { min, max, power, toughness, abilities } => if abilities@.len() == 0 {
            seq![level_tag(min, max) + " "@ + level_stats(power, toughness)]
        } else {
            seq![level_tag(min, max)] + scanned(abilities@).flushed() + seq![
                level_stats(power, toughness),
            ]
        },
    }
}

/// Where one pass over the abilities, from first to last, stands at its end.
/// A keyword opens the keyword line, with its name capitalized, or joins the
/// open one behind a comma; any other ability first closes the open keyword
/// line and then adds its own lines.
pub open spec fn scanned(abilities: Seq<Ability>) -> Progress
    decreases abilities,
{
    if abilities.len() == 0 {
        Progress { lines: Seq::empty(), pending: None }
    } else {
        let before = scanned(abilities.drop_last());
        match abilities.last() {
            Ability::Keyword(name) => Progress {
                lines: before.lines,
                pending: Some(
                    match before.pending {
                        Some(keywords) => keywords + ", "@ + name@,
                        None => capitalized(name@),
                    },
                ),
            },
            other => Progress { lines: before.flushed() + own_lines(other), pending: None },
        }
    }
}

/// The display lines of the abilities.
pub open spec fn rule_lines(abilities: Seq<Ability>) -> Seq<Seq<char>> {
    scanned(abilities).flushed()
}

/// The display lines of the abilities: consecutive keywords share a line,
/// every other ability has lines of its own.
pub fn ability_lines(abilities: &Vec<Ability>) -> (lines: Vec<String>)
    ensures
        texts(lines@) == rule_lines(abilities@),
    decreases abilities,
{
    let mut lines: Vec<String> = Vec::new();
    let mut current_keywords: Option<String> = None;
    let mut i: usize = 0;
    assert(abilities@.take(0) =~= Seq::<Ability>::empty());
    assert(texts(lines@) =~= Seq::<Seq<char>>::empty());
    while i < abilities.len()
        invariant
            i <= abilities.len(),
            texts(lines@) == scanned(abilities@.take(i as int)).lines,
            match current_keywords {
                Some(keywords) => scanned(abilities@.take(i as int)).pending == Some(keywords@),
                None => scanned(abilities@.take(i as int)).pending.is_none(),
            },
        decreases abilities.len() - i,
    {
        proof {
            assert(abilities@.take(i + 1).drop_last() =~= abilities@.take(i as int));
            assert(abilities@.take(i + 1).last() == abilities@[i as int]);
        }
        let ghost before = scanned(abilities@.take(i as int));
        match &abilities[i] {
            Ability::Keyword(keyword) => {
                current_keywords = match current_keywords {
                    Some(keywords) => {
                        let mut keywords = keywords;
                        keywords.append(", ");
                        keywords.append(keyword.as_str());
                        Some(keywords)
                    },
                    None => Some(to_uppercase_first(keyword.as_str())),
                };
            },
            other => {
                if let Some(keywords) = current_keywords {
                    push_text(&mut lines, keywords);
                    current_keywords = None;
                }
                assert(texts(lines@) == before.flushed());
                match other {
                    Ability::Keyword(_) => {},
                    Ability::Other(text) => {
                        push_text(&mut lines, text.clone());
                        assert(texts(lines@) =~= before.flushed() + own_lines(abilities@[i as int]));
                    },
                    Ability::Modal { choose, modes } => {
                        push_text(&mut lines, choose.clone());
                        let mut k: usize = 0;
                        while k < modes.len()
                            invariant
                                k <= modes.len(),
                                texts(lines@) == before.flushed() + seq![choose@] + bulleted(
                                    texts(modes@),
                                ).take(k as int),
                            decreases modes.len() - k,
                        {
                            let mut line = String::from_str("• ");
                            line.append(modes[k].as_str());
                            push_text(&mut lines, line);
                            k += 1;
                            assert(texts(lines@) =~= before.flushed() + seq![choose@] + bulleted(
                                texts(modes@),
                            ).take(k as int));
                        }
                        assert(bulleted(texts(modes@)).take(k as int) =~= bulleted(texts(modes@)));
                        assert(texts(lines@) =~= before.flushed() + own_lines(abilities@[i as int]));
                    },
                    Ability::Chapter { text } => {
                        push_text(&mut lines, text.clone());
                        assert(texts(lines@) =~= before.flushed() + own_lines(abilities@[i as int]));
                    },
                    Ability::Level { min, max, power, toughness, abilities: granted } => {
                        let mut tag = String::from_str("{LEVEL ");
                        tag.append(decimal_string(*min).as_str());
                        match max {
                            Some(max) => {
                                tag.append("-");
                                tag.append(decimal_string(*max).as_str());
                                tag.append("}");
                            },
                            None => {
                                tag.append("+}");
                            },
                        }
                        assert(tag@ =~= level_tag(*min, *max));
                        let mut stats = decimal_string(*power);
                        stats.append("/");
                        stats.append(decimal_string(*toughness).as_str());
                        if granted.len() == 0 {
                            tag.append(" ");
                            tag.append(stats.as_str());
                            push_text(&mut lines, tag);
                        } else {
                            push_text(&mut lines, tag);
                            append_texts(&mut lines, ability_lines(granted));
                            push_text(&mut lines, stats);
                        }
                        assert(texts(lines@) =~= before.flushed() + own_lines(abilities@[i as int]));
                    },
                }
            },
        }
        i += 1;
    }
    assert(abilities@.take(i as int) =~= abilities@);
    if let Some(keywords) = current_keywords {
        push_text(&mut lines, keywords);
    }
    lines
}

/// The name of a keyword ability.
pub open spec fn keyword_name(ability: Ability) -> Seq<char> {
    match ability {
        Ability::Keyword(name) => name@,
        _ => Seq::empty(),
    }
}

/// The line of a run of keywords: the first name capitalized, each later name
/// behind a comma and a space.
pub open spec fn keyword_line(run: Seq<Ability>) -> Seq<char>
    decreases run.len(),
{
    if run.len() == 0 {
        Seq::empty()
    } else if run.len() == 1 {
        capitalized(keyword_name(run[0]))
    } else {
        keyword_line(run.drop_last()) + ", "@ + keyword_name(run.last())
    }
}

/// After a run of keywords the open keyword line is the line of the run,
/// where no keyword line was open before it.
proof fn lemma_scanned_run(before: Seq<Ability>, run: Seq<Ability>)
    requires
        run.len() > 0,
        forall|i: int| 0 <= i < run.len() ==> run[i] is Keyword,
        scanned(before).pending.is_none(),
    ensures
        scanned(before + run).lines == scanned(before).lines,
        scanned(before + run).pending == Some(keyword_line(run)),
    decreases run.len(),
{
    let all = before + run;
    assert(all.drop_last() =~= before + run.drop_last());
    assert(all.last() == run.last());
    assert(run.last() is Keyword);
    if run.len() == 1 {
        assert(before + run.drop_last() =~= before);
        assert(run[0] == run.last());
    } else {
        lemma_scanned_run(before, run.drop_last());
    }
}

/// A run of keywords at the end of the abilities is not lost: where the
/// abilities before the run do not end in a keyword, the lines are those of
/// the abilities before the run and then the one line of the run.
pub proof fn lemma_trailing_keywords(before: Seq<Ability>, run: Seq<Ability>)
    requires
        run.len() > 0,
        forall|i: int| 0 <= i < run.len() ==> run[i] is Keyword,
        before.len() == 0 || !(before.last() is Keyword),
    ensures
        rule_lines(before + run) == rule_lines(before).push(keyword_line(run)),
{
    lemma_scanned_run(before, run);
}

/// Abilities that end in a keyword end in a line that closes with its name.
pub proof fn lemma_last_keyword_kept(abilities: Seq<Ability>)
    requires
        abilities.len() > 0,
        abilities.last() is Keyword,
    ensures
        rule_lines(abilities).len() > 0,
        rule_lines(abilities).last() == scanned(abilities).pending.unwrap(),
        ({
            let line = rule_lines(abilities).last();
            let name = keyword_name(abilities.last());
            line == capitalized(name) || (line.len() >= name.len() + 2 && line.skip(
                line.len() - name.len(),
            ) == name)
        }),
{
    let before = scanned(abilities.drop_last());
    let name = keyword_name(abilities.last());
    match before.pending {
        Some(keywords) => {
            let line = keywords + ", "@ + name;
            reveal_strlit(", ");
            assert(line.skip(line.len() - name.len()) =~= name);
        },
        None => {},
    }
}

} // verus!
