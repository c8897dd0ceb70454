//! One rule's actions run on one row, a step at a time. The prompt parser's
//! part (the artist list of a row, a prompt with an artist name prefixed)
//! is done by the caller between steps and handed back as a reply.
use vstd::prelude::*;

use crate::prompt_tokens::{normalized_list, normalized_strings};
use crate::rule_actions::{action_effect, apply_action, prompt_field, prompt_of, ActionStep};
use crate::rule_conditions::RuleRow;
use crate::rule_run::{tally_after, tally_step, ActionTally};
use crate::rules::{PromptActionField, RuleAction};

verus! {

/// What a run waits for before it can go on.
#[derive(Debug, Clone, Copy, PartialEq, Eq, Structural)]
pub enum PromptWork {
    /// Nothing: the next step can be taken at once.
    Nothing,
    /// The row's artist list, recomputed from its positive and character
    /// prompts.
    Artists,
    /// The prompt of this field with the current artist name prefixed, or
    /// nothing when the prompt is left as it is.
    Prefix(PromptActionField),
}

/// The caller's answer to what the run waited for.
#[derive(Debug, Clone, PartialEq, Eq)]
pub enum PromptReply {
    Nothing,
    Artists(Option<String>),
    Prefixed(Option<String>),
}

/// A prefix-artist action under way: its artist names, the name and the
/// prompt field next in turn, and whether a prompt changed so far.
#[derive(Debug, Clone, PartialEq, Eq)]
pub struct Prefixing {
    pub artists: Vec<String>,
    pub artist: usize,
    pub field: PromptActionField,
    pub prefixed: bool,
}

/// A rule's actions under way on one row: the row so far, the tally, the
/// next action, the prefix-artist action under way and what the run waits
/// for.
#[derive(Debug, Clone)]
pub struct ActionRun {
    pub row: RuleRow,
    pub tally: ActionTally,
    pub next: usize,
    pub prefixing: Option<Prefixing>,
    pub awaiting: PromptWork,
}

/// The prompt field after `f` in the order positive, character, negative.
pub open spec fn field_after(f: PromptActionField) -> Option<PromptActionField> {
    match f {
        PromptActionField::Positive => Some(PromptActionField::Character),
        PromptActionField::Character => Some(PromptActionField::Negative),
        PromptActionField::Negative => None,
    }
}

/// The prefixing after the current name and field were dealt with: the next
/// field of the same name, or the first field of the next name.
pub open spec fn cursor_after(p: Prefixing, prefixed: bool) -> Prefixing {
    match field_after(p.field) {
        Some(f) => Prefixing { artists: p.artists, artist: p.artist, field: f, prefixed },
        None => Prefixing {
            artists: p.artists,
            artist: (p.artist + 1) as usize,
            field: PromptActionField::Positive,
            prefixed,
        },
    }
}

/// `row` with the prompt of `f` set to `v`.
pub open spec fn with_prompt(row: RuleRow, f: PromptActionField, v: Option<String>) -> RuleRow {
    match f {
        PromptActionField::Positive => RuleRow { positive_prompt: v, ..row },
        PromptActionField::Character => RuleRow { character_prompt: v, ..row },
        PromptActionField::Negative => RuleRow { negative_prompt: v, ..row },
    }
}

/// The artist names a prefix-artist action offers, normalised.
pub open spec fn prefix_names(a: RuleAction) -> Seq<Seq<char>> {
    match a {
        RuleAction::PrefixArtist { artists } => normalized_list(artists@.map_values(|s: String| s@)),
        _ => Seq::empty(),
    }
}

impl ActionRun {
    /// The run is consistent with `actions`: the next action exists or the
    /// actions are done, the tally counts at most the actions taken, and a
    /// prefix request names a prompt that is there.
    pub open spec fn wf(self, actions: Seq<RuleAction>) -> bool {
        &&& self.next <= actions.len()
        &&& match self.prefixing {
            None => self.tally.changed_actions <= self.next,
            Some(p) => self.tally.changed_actions < self.next && p.artist <= p.artists.len(),
        }
        &&& match self.awaiting {
            PromptWork::Prefix(f) => self.prefixing matches Some(p) && p.artist < p.artists.len() && p.field == f
                && prompt_field(self.row, f) is Some,
            _ => true,
        }
    }

    /// Every action ran and nothing is waited for.
    pub open spec fn finished(self, actions: Seq<RuleAction>) -> bool {
        self.prefixing is None && self.awaiting == PromptWork::Nothing && self.next >= actions.len()
    }

    /// `t` is the run after the action `a` gave `step`.
    pub open spec fn after_action(self, t: ActionRun, a: RuleAction, step: ActionStep) -> bool {
        &&& t.next == self.next + 1
        &&& match step {
            ActionStep::Done { prompt_changed, .. } => {
                &&& t.tally == tally_after(self.tally, step, false)
                &&& t.prefixing is None
                &&& t.awaiting == (if prompt_changed {
                    PromptWork::Artists
                } else {
                    PromptWork::Nothing
                })
            },
            ActionStep::Stop => {
                &&& t.tally == tally_after(self.tally, step, false)
                &&& t.prefixing is None
                &&& t.awaiting == PromptWork::Nothing
            },
            ActionStep::PrefixArtists => {
                &&& t.tally == self.tally
                &&& t.awaiting == PromptWork::Nothing
                &&& t.prefixing matches Some(p) && p.artists@.map_values(|s: String| s@) == prefix_names(a)
                    && p.artist == 0 && p.field == PromptActionField::Positive && !p.prefixed
            },
        }
    }

    /// `t` is the run after one step on `reply`. A reply to what the run
    /// waits for is taken in (the artist list, or the prefixed prompt, after
    /// which the cursor moves on); any other reply leaves the run as it is.
    /// Waiting for nothing, the run moves the prefixing on (asking for the
    /// next prompt that is there, and at the end counting the action and
    /// asking for the artist list when a prompt changed) or runs the next
    /// action.
    pub open spec fn stepped(self, actions: Seq<RuleAction>, reply: PromptReply, t: ActionRun) -> bool {
        match self.awaiting {
            PromptWork::Artists => match reply {
                PromptReply::Artists(a) => t == ActionRun {
                    row: RuleRow { artists: a, ..self.row },
                    awaiting: PromptWork::Nothing,
                    ..self
                },
                _ => t == self,
            },
            PromptWork::Prefix(f) => match reply {
                PromptReply::Prefixed(v) => {
                    let p = self.prefixing.unwrap();
                    &&& t.row == (if v is Some {
                        with_prompt(self.row, f, v)
                    } else {
                        self.row
                    })
                    &&& t.prefixing == Some(cursor_after(p, p.prefixed || v is Some))
                    &&& t.tally == self.tally
                    &&& t.next == self.next
                    &&& t.awaiting == PromptWork::Nothing
                },
                _ => t == self,
            },
            PromptWork::Nothing => match self.prefixing {
                Some(p) => if p.artist < p.artists.len() {
                    if prompt_field(self.row, p.field) is Some {
                        t == ActionRun { awaiting: PromptWork::Prefix(p.field), ..self }
                    } else {
                        t == ActionRun { prefixing: Some(cursor_after(p, p.prefixed)), ..self }
                    }
                } else {
                    t == ActionRun {
                        prefixing: None,
                        tally: tally_after(self.tally, ActionStep::PrefixArtists, p.prefixed),
                        awaiting: if p.prefixed {
                            PromptWork::Artists
                        } else {
                            PromptWork::Nothing
                        },
                        ..self
                    }
                },
                None => if self.next < actions.len() {
                    exists|step: ActionStep|
                        #[trigger] action_effect(self.row, t.row, actions[self.next as int], step)
                            && self.after_action(t, actions[self.next as int], step)
                } else {
                    t == self
                },
            },
        }
    }

    /// A run of the actions on `row`, before the first step.
    pub fn new(row: RuleRow) -> (r: ActionRun)
        ensures
            r == (ActionRun {
                row,
                tally: ActionTally { changed_actions: 0, stop: false },
                next: 0,
                prefixing: None,
                awaiting: PromptWork::Nothing,
            }),
    {
        ActionRun {
            row,
            tally: ActionTally { changed_actions: 0, stop: false },
            next: 0,
            prefixing: None,
            awaiting: PromptWork::Nothing,
        }
    }

    /// The artist name a prefix request is about.
    pub fn current_artist(&self) -> (r: Option<&String>)
        ensures
            match self.prefixing {
                Some(p) => if p.artist < p.artists.len() {
                    r == Some(&p.artists@[p.artist as int])
                } else {
                    r is None
                },
                None => r is None,
            },
    {
        match &self.prefixing {
            Some(p) => if p.artist < p.artists.len() {
                Some(&p.artists[p.artist])
            } else {
                None
            },
            None => None,
        }
    }

    /// Takes one step on `reply` (see `stepped`); says whether every action
    /// ran and nothing is waited for, in which case the run is left as it is.
    pub fn advance(&mut self, actions: &Vec<RuleAction>, reply: PromptReply) -> (finished: bool)
        requires
            old(self).wf(actions@),
        ensures
            final(self).wf(actions@),
            finished == old(self).finished(actions@),
            old(self).stepped(actions@, reply, *final(self)),
    {
        match self.awaiting {
            PromptWork::Artists => {
                match reply {
                    PromptReply::Artists(a) => {
                        self.row.artists = a;
                        self.awaiting = PromptWork::Nothing;
                    },
                    _ => {},
                }
                return false;
            },
            PromptWork::Prefix(f) => {
                match reply {
                    PromptReply::Prefixed(v) => {
                        let changed = v.is_some();
                        if changed {
                            match f {
                                PromptActionField::Positive => self.row.positive_prompt = v,
                                PromptActionField::Character => self.row.character_prompt = v,
                                PromptActionField::Negative => self.row.negative_prompt = v,
                            }
                        }
                        let p = self.prefixing.take().unwrap();
                        let prefixed = p.prefixed || changed;
                        self.prefixing = Some(next_cursor(p, prefixed));
                        self.awaiting = PromptWork::Nothing;
                    },
                    _ => {},
                }
                return false;
            },
            PromptWork::Nothing => {},
        }
        if self.prefixing.is_some() {
            let p = self.prefixing.take().unwrap();
            if p.artist < p.artists.len() {
                if prompt_of(&self.row, p.field).is_some() {
                    self.awaiting = PromptWork::Prefix(p.field);
                    self.prefixing = Some(p);
                } else {
                    let prefixed = p.prefixed;
                    self.prefixing = Some(next_cursor(p, prefixed));
                }
            } else {
                tally_step(&mut self.tally, ActionStep::PrefixArtists, p.prefixed);
                self.awaiting = if p.prefixed {
                    PromptWork::Artists
                } else {
                    PromptWork::Nothing
                };
            }
            return false;
        }
        if self.next >= actions.len() {
            return true;
        }
        let ghost before = *self;
        let step = apply_action(&mut self.row, &actions[self.next]);
        match step {
            ActionStep::Done { prompt_changed, .. } => {
                tally_step(&mut self.tally, step, false);
                self.awaiting = if prompt_changed {
                    PromptWork::Artists
                } else {
                    PromptWork::Nothing
                };
            },
            ActionStep::Stop => {
                tally_step(&mut self.tally, step, false);
            },
            ActionStep::PrefixArtists => {
                match &actions[self.next] {
                    RuleAction::PrefixArtist { artists } => {
                        let names = normalized_strings(artists);
                        self.prefixing = Some(
                            Prefixing { artists: names, artist: 0, field: PromptActionField::Positive, prefixed: false },
                        );
                    },
                    _ => {},
                }
            },
        }
        self.next = self.next + 1;
        assert(before.after_action(*self, actions@[before.next as int], step));
        false
    }
}

/// Moves a prefixing on (see `cursor_after`).
fn next_cursor(p: Prefixing, prefixed: bool) -> (r: Prefixing)
    requires
        p.artist < p.artists.len(),
    ensures
        r == cursor_after(p, prefixed),
{
    match p.field {
        PromptActionField::Positive => Prefixing {
            artists: p.artists,
            artist: p.artist,
            field: PromptActionField::Character,
            prefixed,
        },
        PromptActionField::Character => Prefixing {
            artists: p.artists,
            artist: p.artist,
            field: PromptActionField::Negative,
            prefixed,
        },
        PromptActionField::Negative => Prefixing {
            artists: p.artists,
            artist: p.artist + 1,
            field: PromptActionField::Positive,
            prefixed,
        },
    }
}

} // verus!
