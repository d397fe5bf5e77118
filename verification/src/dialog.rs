//! Dialog trees: lines spoken by an NPC, and branching player choices.
//!
//! A dialog is either one NPC line with an optional continuation, or a list
//! of player choices, each leading to a further dialog or ending the
//! conversation. `update_leaf_at` grafts a new dialog onto a leaf reached by
//! a path of player choices.

use vstd::prelude::*;

verus! {

/// A dialog tree.
#[derive(Debug, PartialEq, Eq, Hash)]
pub enum Dialog {
    NPCDialog(Box<NPCDialog>),
    PlayerDialog(Box<Vec<(String, Option<Dialog>)>>),
}

/// One NPC line: who speaks, what they say, and what follows.
#[derive(Debug, PartialEq, Eq, Hash)]
pub struct NPCDialog {
    pub speaker: String,
    pub contents: String,
    pub next: Option<Dialog>,
}

/// Errors a leaf update can meet on its way down the tree.
#[derive(Debug, PartialEq, Eq)]
pub enum DialogError {
    /// A player choice index points past the options.
    OutOfBounds,
    /// The path ended on a player dialog, whose prompts are handed back.
    MoreChoicesExist(Vec<String>),
    /// The path went on below a leaf.
    EncounteredTooFewChoices,
}

/// Structural equality of dialogs: same shape, same words. A copied dialog
/// equals its original in this sense.
pub open spec fn same_dialog(a: Dialog, b: Dialog) -> bool
    decreases a,
{
    match a {
        Dialog::NPCDialog(x) => match b {
            Dialog::NPCDialog(y) => same_npc_dialog(*x, *y),
            _ => false,
        },
        Dialog::PlayerDialog(xo) => match b {
            Dialog::PlayerDialog(yo) => {
                &&& xo@.len() == yo@.len()
                &&& forall|k: int|
                    0 <= k < xo@.len() ==> (#[trigger] xo@[k]).0 == yo@[k].0 && same_dialog_option(
                        xo@[k].1,
                        yo@[k].1,
                    )
            },
            _ => false,
        },
    }
}

/// Structural equality of optional continuations.
pub open spec fn same_dialog_option(a: Option<Dialog>, b: Option<Dialog>) -> bool
    decreases a,
{
    match a {
        None => b is None,
        Some(x) => match b {
            Some(y) => same_dialog(x, y),
            None => false,
        },
    }
}

/// Structural equality of NPC lines.
pub open spec fn same_npc_dialog(a: NPCDialog, b: NPCDialog) -> bool
    decreases a,
{
    &&& a.speaker == b.speaker
    &&& a.contents == b.contents
    &&& same_dialog_option(a.next, b.next)
}

/// Every dialog equals itself structurally.
pub proof fn lemma_same_dialog_refl(d: Dialog)
    ensures
        same_dialog(d, d),
    decreases d,
{
    match d {
        Dialog::NPCDialog(x) => {
            lemma_same_dialog_option_refl(x.next);
        },
        Dialog::PlayerDialog(xo) => {
            assert forall|k: int| 0 <= k < xo@.len() implies (#[trigger] xo@[k]).0 == xo@[k].0
                && same_dialog_option(xo@[k].1, xo@[k].1) by {
                lemma_same_dialog_option_refl(xo@[k].1);
            }
        },
    }
}

/// Every optional continuation equals itself structurally.
pub proof fn lemma_same_dialog_option_refl(o: Option<Dialog>)
    ensures
        same_dialog_option(o, o),
    decreases o,
{
    match o {
        None => {},
        Some(d) => {
            lemma_same_dialog_refl(d);
        },
    }
}

/// Whether grafting a new dialog along this choice path succeeds: the path
/// must follow existing choices and end exactly on a missing continuation.
pub open spec fn update_leaf_ok(d: Dialog, choices: Seq<usize>) -> bool
    decreases d,
{
    match d {
        Dialog::PlayerDialog(options) => {
            &&& choices.len() > 0
            &&& (choices[0] as int) < options@.len()
            &&& match options@[choices[0] as int].1 {
                None => choices.len() == 1,
                Some(inner) => update_leaf_ok(inner, choices.drop_first()),
            }
        },
        Dialog::NPCDialog(npc) => match npc.next {
            None => choices.len() == 0,
            Some(inner) => update_leaf_ok(inner, choices),
        },
    }
}

/// The error a failing graft reports: a path ending early on a player dialog
/// hands back its prompts; an index past the options is out of bounds; a
/// path going on below a leaf ran out of dialog.
pub open spec fn update_leaf_error(d: Dialog, choices: Seq<usize>, e: DialogError) -> bool
    decreases d,
{
    match d {
        Dialog::PlayerDialog(options) => {
            if choices.len() == 0 {
                match e {
                    DialogError::MoreChoicesExist(prompts) => {
                        &&& prompts@.len() == options@.len()
                        &&& forall|k: int|
                            0 <= k < options@.len() ==> (#[trigger] prompts@[k])@ == options@[k].0@
                    },
                    _ => false,
                }
            } else if (choices[0] as int) >= options@.len() {
                e == DialogError::OutOfBounds
            } else {
                match options@[choices[0] as int].1 {
                    None => choices.len() > 1 && e == DialogError::EncounteredTooFewChoices,
                    Some(inner) => update_leaf_error(inner, choices.drop_first(), e),
                }
            }
        },
        Dialog::NPCDialog(npc) => match npc.next {
            None => choices.len() > 0 && e == DialogError::EncounteredTooFewChoices,
            Some(inner) => update_leaf_error(inner, choices, e),
        },
    }
}

/// How a successful graft changes the tree: everything stays as it was but
/// for the leaf at the end of the choice path, which now continues with the
/// new dialog.
pub open spec fn updated_leaf(old_d: Dialog, choices: Seq<usize>, nd: Dialog, new_d: Dialog) -> bool
    decreases old_d,
{
    match old_d {
        Dialog::PlayerDialog(options) => match new_d {
            Dialog::PlayerDialog(new_options) => {
                &&& choices.len() > 0
                &&& (choices[0] as int) < options@.len()
                &&& new_options@.len() == options@.len()
                &&& forall|k: int|
                    0 <= k < options@.len() && k != choices[0] as int ==> #[trigger] new_options@[k]
                        == options@[k]
                &&& new_options@[choices[0] as int].0 == options@[choices[0] as int].0
                &&& match options@[choices[0] as int].1 {
                    None => choices.len() == 1 && new_options@[choices[0] as int].1 == Some(nd),
                    Some(inner) => match new_options@[choices[0] as int].1 {
                        Some(new_inner) => updated_leaf(inner, choices.drop_first(), nd, new_inner),
                        None => false,
                    },
                }
            },
            _ => false,
        },
        Dialog::NPCDialog(npc) => match new_d {
            Dialog::NPCDialog(new_npc) => {
                &&& new_npc.speaker == npc.speaker
                &&& new_npc.contents == npc.contents
                &&& match npc.next {
                    None => choices.len() == 0 && new_npc.next == Some(nd),
                    Some(inner) => match new_npc.next {
                        Some(new_inner) => updated_leaf(inner, choices, nd, new_inner),
                        None => false,
                    },
                }
            },
            _ => false,
        },
    }
}

/// A value copy of a dialog tree.
pub fn duplicate_dialog(d: &Dialog) -> (r: Dialog)
    ensures
        same_dialog(*d, r),
    decreases *d,
{
    match d {
        Dialog::NPCDialog(npc) => {
            let next = match &npc.next {
                None => None,
                Some(inner) => Some(duplicate_dialog(inner)),
            };
            proof {
                assert(same_dialog_option(npc.next, next));
            }
            let line = NPCDialog {
                speaker: npc.speaker.clone(),
                contents: npc.contents.clone(),
                next,
            };
            proof {
                assert(same_npc_dialog(**npc, line));
            }
            Dialog::NPCDialog(Box::new(line))
        },
        Dialog::PlayerDialog(boxed_options) => {
            let options: &Vec<(String, Option<Dialog>)> = &**boxed_options;
            let n = options.len();
            let mut new_options: Vec<(String, Option<Dialog>)> = Vec::new();
            let mut i: usize = 0;
            while i < n
                invariant
                    0 <= i <= n,
                    n == options@.len(),
                    *d matches Dialog::PlayerDialog(b) && b == options,
                    new_options@.len() == i,
                    forall|k: int|
                        0 <= k < i ==> (#[trigger] new_options@[k]).0 == options@[k].0
                            && same_dialog_option(options@[k].1, new_options@[k].1),
                decreases n - i,
            {
                let pair = &options[i];
                let next = match &pair.1 {
                    None => None,
                    Some(inner) => {
                        proof {
                            assert(*inner == options@[i as int].1->0);
                            assert(decreases_to!(*d => *inner));
                        }
                        Some(duplicate_dialog(inner))
                    },
                };
                new_options.push((pair.0.clone(), next));
                i = i + 1;
            }
            let r = Dialog::PlayerDialog(Box::new(new_options));
            proof {
                assert(same_dialog(*d, r));
            }
            r
        },
    }
}

impl From<NPCDialog> for Dialog {
    fn from(value: NPCDialog) -> (r: Self) {
        Self::NPCDialog(Box::new(value))
    }
}

impl vstd::std_specs::convert::FromSpecImpl<NPCDialog> for Dialog {
    // A dialog wraps its line in a `Box`, which no spec expression can
    // build, so the conversion is left unspecified; contracts speak of the
    // structural `same_dialog` relation instead.
    open spec fn obeys_from_spec() -> bool {
        false
    }

    open spec fn from_spec(value: NPCDialog) -> Self {
        arbitrary()
    }
}

impl Dialog {
    /// One NPC line with an optional continuation.
    pub fn new_npc(speaker: String, contents: String, next: Option<Dialog>) -> (r: Self)
        ensures
            r matches Dialog::NPCDialog(npc) && *npc == (NPCDialog { speaker, contents, next }),
    {
        Self::NPCDialog(Box::new(NPCDialog::new(speaker, contents, next)))
    }

    /// A chain of NPC lines by one speaker, one per entry.
    pub fn story(speaker: String, contents: Vec<String>) -> (r: Self)
        requires
            contents@.len() > 0,
        ensures
            r matches Dialog::NPCDialog(npc) && is_story(*npc, speaker@, contents@),
    {
        let npc = NPCDialog::story(speaker, contents);
        Self::NPCDialog(Box::new(npc))
    }

    /// Grafts `new_dialog` onto the leaf the choice path leads to. On any
    /// failure the tree is left as it was and the error names what went
    /// wrong; see `update_leaf_error`.
    pub fn update_leaf_at(&mut self, player_choices: Vec<usize>, new_dialog: Dialog) -> (r: Result<
        (),
        DialogError,
    >)
        ensures
            r is Ok <==> update_leaf_ok(*old(self), player_choices@),
            r is Ok ==> updated_leaf(*old(self), player_choices@, new_dialog, *final(self)),
            r matches Err(e) ==> update_leaf_error(*old(self), player_choices@, e) && same_dialog(
                *old(self),
                *final(self),
            ),
    {
        proof {
            assert(player_choices@.skip(0) =~= player_choices@);
        }
        self.update_leaf_from(&player_choices, 0, new_dialog)
    }

    /// The descent of `update_leaf_at`: follows the path from its `from`-th
    /// entry.
    fn update_leaf_from(
        &mut self,
        player_choices: &Vec<usize>,
        from: usize,
        new_dialog: Dialog,
    ) -> (r: Result<(), DialogError>)
        requires
            from <= player_choices@.len(),
        ensures
            r is Ok <==> update_leaf_ok(*old(self), player_choices@.skip(from as int)),
            r is Ok ==> updated_leaf(
                *old(self),
                player_choices@.skip(from as int),
                new_dialog,
                *final(self),
            ),
            r matches Err(e) ==> update_leaf_error(*old(self), player_choices@.skip(from as int), e)
                && same_dialog(*old(self), *final(self)),
        decreases *old(self),
    {
        let ghost path = player_choices@.skip(from as int);
        match self {
            Dialog::PlayerDialog(boxed_options) => {
                let ghost opts0 = old(self)->PlayerDialog_0@;
                if from >= player_choices.len() {
                    proof {
                        assert(path.len() == 0);
                    }
                    let options: &Vec<(String, Option<Dialog>)> = &**boxed_options;
                    proof {
                        assert(options@ == opts0);
                    }
                    let mut prompts: Vec<String> = Vec::new();
                    let n = options.len();
                    let mut i: usize = 0;
                    while i < n
                        invariant
                            0 <= i <= n,
                            n == options@.len(),
                            options@ == opts0,
                            prompts@.len() == i,
                            forall|k: int| 0 <= k < i ==> (#[trigger] prompts@[k])@ == opts0[k].0@,
                        decreases n - i,
                    {
                        prompts.push(options[i].0.clone());
                        i = i + 1;
                    }
                    proof {
                        lemma_same_dialog_refl(*old(self));
                        assert(*final(self) == *old(self));
                        assert(update_leaf_error(
                            *old(self),
                            path,
                            DialogError::MoreChoicesExist(prompts),
                        ));
                    }
                    return Err(DialogError::MoreChoicesExist(prompts));
                }
                let choice_index = player_choices[from];
                proof {
                    assert(path[0] == player_choices@[from as int]);
                }
                let in_bounds = {
                    let options: &Vec<(String, Option<Dialog>)> = &**boxed_options;
                    choice_index < options.len()
                };
                if !in_bounds {
                    proof {
                        lemma_same_dialog_refl(*old(self));
                        assert(*final(self) == *old(self));
                    }
                    return Err(DialogError::OutOfBounds);
                }
                let has_inner = {
                    let options: &Vec<(String, Option<Dialog>)> = &**boxed_options;
                    options[choice_index].1.is_some()
                };
                if has_inner {
                    let options: &mut Vec<(String, Option<Dialog>)> = &mut **boxed_options;
                    let pair = &mut options[choice_index];
                    let inner = match &mut pair.1 {
                        Some(inner) => inner,
                        None => {
                            return unreached();
                        },
                    };
                    proof {
                        assert(*inner == opts0[choice_index as int].1->0);
                        assert(decreases_to!(*old(self) => *inner));
                    }
                    let r = inner.update_leaf_from(player_choices, from + 1, new_dialog);
                    proof {
                        assert(path.drop_first() =~= player_choices@.skip(from as int + 1));
                        let no = final(self)->PlayerDialog_0@;
                        assert((*final(self)) is PlayerDialog);
                        assert(no =~= opts0.update(
                            choice_index as int,
                            (opts0[choice_index as int].0, Some(*final(inner))),
                        ));
                        if r is Err {
                            assert forall|k: int|
                                0 <= k < opts0.len() implies (#[trigger] opts0[k]).0 == no[k].0
                                    && same_dialog_option(opts0[k].1, no[k].1) by {
                                if k == choice_index as int {
                                    assert(same_dialog(opts0[k].1->0, no[k].1->0));
                                } else {
                                    assert(no[k] == opts0[k]);
                                    lemma_same_dialog_option_refl(opts0[k].1);
                                }
                            }
                            assert(same_dialog(*old(self), *final(self)));
                        }
                    }
                    r
                } else {
                    if from + 1 < player_choices.len() {
                        proof {
                            assert(path.len() > 1);
                            lemma_same_dialog_refl(*old(self));
                            assert(*final(self) == *old(self));
                        }
                        return Err(DialogError::EncounteredTooFewChoices);
                    }
                    let options: &mut Vec<(String, Option<Dialog>)> = &mut **boxed_options;
                    let pair = &mut options[choice_index];
                    pair.1 = Some(new_dialog);
                    proof {
                        assert(path.len() == 1);
                        let no = final(self)->PlayerDialog_0@;
                        assert((*final(self)) is PlayerDialog);
                        assert(no =~= opts0.update(
                            choice_index as int,
                            (opts0[choice_index as int].0, Some(new_dialog)),
                        ));
                        assert(updated_leaf(*old(self), path, new_dialog, *final(self)));
                    }
                    Ok(())
                }
            },
            Dialog::NPCDialog(boxed_npc) => {
                let ghost npc0 = old(self)->NPCDialog_0;
                let has_next = {
                    let npc: &NPCDialog = &**boxed_npc;
                    npc.next.is_some()
                };
                if has_next {
                    let npc: &mut NPCDialog = &mut **boxed_npc;
                    let inner = match &mut npc.next {
                        Some(inner) => inner,
                        None => {
                            return unreached();
                        },
                    };
                    proof {
                        assert(*inner == npc0.next->0);
                        assert(decreases_to!(*old(self) => *inner));
                    }
                    let r = inner.update_leaf_from(player_choices, from, new_dialog);
                    proof {
                        assert((*final(self)) is NPCDialog);
                        let fnpc = final(self)->NPCDialog_0;
                        assert(fnpc.speaker == npc0.speaker);
                        assert(fnpc.contents == npc0.contents);
                        assert(fnpc.next == Some(*final(inner)));
                        if r is Err {
                            assert(npc0.next is Some);
                            assert(same_dialog(npc0.next->0, fnpc.next->0));
                            assert(same_dialog_option(npc0.next, fnpc.next));
                            assert(same_npc_dialog(*npc0, *fnpc));
                            assert(same_dialog(*old(self), *final(self)));
                        }
                    }
                    r
                } else {
                    if from < player_choices.len() {
                        proof {
                            assert(path.len() > 0);
                            lemma_same_dialog_refl(*old(self));
                            assert(*final(self) == *old(self));
                        }
                        return Err(DialogError::EncounteredTooFewChoices);
                    }
                    let npc: &mut NPCDialog = &mut **boxed_npc;
                    npc.next = Some(new_dialog);
                    proof {
                        assert(path.len() == 0);
                        assert((*final(self)) is NPCDialog);
                        let fnpc = final(self)->NPCDialog_0;
                        assert(fnpc.speaker == npc0.speaker);
                        assert(fnpc.contents == npc0.contents);
                        assert(fnpc.next == Some(new_dialog));
                        assert(updated_leaf(*old(self), path, new_dialog, *final(self)));
                    }
                    Ok(())
                }
            },
        }
    }
}

/// The chain `NPCDialog::story` builds: the speaker's lines in order, ending
/// with the last.
pub open spec fn is_story(d: NPCDialog, speaker: Seq<char>, contents: Seq<String>) -> bool
    decreases contents.len(),
{
    &&& contents.len() >= 1
    &&& d.speaker@ == speaker
    &&& d.contents@ == contents[0]@
    &&& if contents.len() == 1 {
        d.next is None
    } else {
        match d.next {
            Some(next) => match next {
                Dialog::NPCDialog(inner) => is_story(*inner, speaker, contents.drop_first()),
                _ => false,
            },
            None => false,
        }
    }
}

impl NPCDialog {
    /// Builds a line from its parts.
    pub fn new(speaker: String, contents: String, next: Option<Dialog>) -> (r: Self)
        ensures
            r == (NPCDialog { speaker, contents, next }),
    {
        Self { speaker, contents, next }
    }

    /// A line that ends the conversation.
    pub fn leaf(speaker: String, contents: String) -> (r: Self)
        ensures
            r == (NPCDialog { speaker, contents, next: None }),
    {
        Self::new(speaker, contents, None)
    }

    /// A chain of lines by one speaker, one per entry of `contents`.
    pub fn story(speaker: String, contents: Vec<String>) -> (r: Self)
        requires
            contents@.len() > 0,
        ensures
            is_story(r, speaker@, contents@),
    {
        proof {
            assert(contents@.skip(0) =~= contents@);
        }
        Self::story_from(&speaker, &contents, 0)
    }

    /// The descent of `story`: the chain of the lines from the `from`-th on.
    fn story_from(speaker: &String, contents: &Vec<String>, from: usize) -> (r: Self)
        requires
            from < contents@.len(),
        ensures
            is_story(r, speaker@, contents@.skip(from as int)),
        decreases contents@.len() - from,
    {
        let ghost path = contents@.skip(from as int);
        let n = contents.len();
        if from + 1 == n {
            proof {
                assert(path.len() == 1);
                assert(path[0] == contents@[from as int]);
            }
            Self::leaf(speaker.clone(), contents[from].clone())
        } else {
            let rest = Self::story_from(speaker, contents, from + 1);
            proof {
                assert(path.drop_first() =~= contents@.skip(from as int + 1));
                assert(path[0] == contents@[from as int]);
            }
            Self::new(
                speaker.clone(),
                contents[from].clone(),
                Some(Dialog::NPCDialog(Box::new(rest))),
            )
        }
    }

    /// Who speaks the line.
    pub fn get_speaker(&self) -> (r: String)
        ensures
            r@ == self.speaker@,
    {
        self.speaker.clone()
    }

    /// What the line says.
    pub fn get_contents(&self) -> (r: String)
        ensures
            r@ == self.contents@,
    {
        self.contents.clone()
    }

    /// A copy of what follows the line, if anything.
    pub fn get_next(&self) -> (r: Option<Dialog>)
        ensures
            same_dialog_option(self.next, r),
    {
        match &self.next {
            None => None,
            Some(d) => Some(duplicate_dialog(d)),
        }
    }
}

} // verus!
