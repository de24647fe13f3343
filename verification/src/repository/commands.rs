use crate::database::Database;
use crate::error::{DomainError, DomainErrorView};
use crate::objects::pairs_view;
use crate::state::{rows_for_object, rows_for_rule, State};
use vstd::prelude::*;

verus! {

/// A change to the keys of a store.
#[derive(Debug, PartialEq, Eq)]
pub enum KeyCommand {
    /// Remove the keys of the rule.
    DeleteByRuleId(String),
    /// Remove the keys of the object.
    DeleteByObjectId(String),
    /// Store keys of the rule, given as pairs of object identifier and key.
    CreateMany { rule_id: String, keys: Vec<(String, String)> },
    /// Store keys of the object, given as pairs of rule identifier and key.
    CreateMany2 { object_id: String, keys: Vec<(String, String)> },
}

/// A [`KeyCommand`] as a mathematical value.
pub enum KeyCommandView {
    DeleteByRuleId(Seq<char>),
    DeleteByObjectId(Seq<char>),
    CreateMany { rule_id: Seq<char>, keys: Seq<(Seq<char>, Seq<char>)> },
    CreateMany2 { object_id: Seq<char>, keys: Seq<(Seq<char>, Seq<char>)> },
}

impl View for KeyCommand {
    type V = KeyCommandView;

    open spec fn view(&self) -> KeyCommandView {
        match self {
            KeyCommand::DeleteByRuleId(rule_id) => KeyCommandView::DeleteByRuleId(rule_id@),
            KeyCommand::DeleteByObjectId(object_id) => KeyCommandView::DeleteByObjectId(object_id@),
            KeyCommand::CreateMany { rule_id, keys } => KeyCommandView::CreateMany {
                rule_id: rule_id@,
                keys: pairs_view(keys@),
            },
            KeyCommand::CreateMany2 { object_id, keys } => KeyCommandView::CreateMany2 {
                object_id: object_id@,
                keys: pairs_view(keys@),
            },
        }
    }
}

/// The commands of a list as mathematical values, in the same order.
pub open spec fn commands_view(commands: Seq<KeyCommand>) -> Seq<KeyCommandView> {
    commands.map_values(|command: KeyCommand| command@)
}

/// The command that stores the keys of a rule; none where there are no
/// keys to store.
pub open spec fn create_for_rule(rule_id: Seq<char>, pairs: Seq<(Seq<char>, Seq<char>)>) -> Seq<
    KeyCommandView,
> {
    if pairs.len() == 0 {
        Seq::empty()
    } else {
        seq![KeyCommandView::CreateMany { rule_id, keys: pairs }]
    }
}

/// The command that stores the keys of an object; none where there are no
/// keys to store.
pub open spec fn create_for_object(object_id: Seq<char>, pairs: Seq<(Seq<char>, Seq<char>)>) -> Seq<
    KeyCommandView,
> {
    if pairs.len() == 0 {
        Seq::empty()
    } else {
        seq![KeyCommandView::CreateMany2 { object_id, keys: pairs }]
    }
}

/// The commands that put keys in the place of those that a rule has.
pub open spec fn replace_for_rule(rule_id: Seq<char>, pairs: Seq<(Seq<char>, Seq<char>)>) -> Seq<
    KeyCommandView,
> {
    seq![KeyCommandView::DeleteByRuleId(rule_id)] + create_for_rule(rule_id, pairs)
}

/// The commands that put keys in the place of those that an object has.
pub open spec fn replace_for_object(object_id: Seq<char>, pairs: Seq<(Seq<char>, Seq<char>)>) -> Seq<
    KeyCommandView,
> {
    seq![KeyCommandView::DeleteByObjectId(object_id)] + create_for_object(object_id, pairs)
}

impl State {
    /// What a command makes of the store.
    pub open spec fn executed(self, command: KeyCommandView) -> Result<State, DomainErrorView> {
        match command {
            KeyCommandView::DeleteByRuleId(rule_id) => Ok(self.without_keys_of_rule(rule_id)),
            KeyCommandView::DeleteByObjectId(object_id) => Ok(self.without_keys_of_object(object_id)),
            KeyCommandView::CreateMany { rule_id, keys } => self.keys_inserted(
                rows_for_rule(rule_id, keys),
            ),
            KeyCommandView::CreateMany2 { object_id, keys } => self.keys_inserted(
                rows_for_object(object_id, keys),
            ),
        }
    }

    /// What commands make of the store, one after the other; the error of
    /// the first that fails.
    pub open spec fn executed_all(self, commands: Seq<KeyCommandView>) -> Result<
        State,
        DomainErrorView,
    >
        decreases commands.len(),
    {
        if commands.len() == 0 {
            Ok(self)
        } else {
            match self.executed(commands[0]) {
                Err(error) => Err(error),
                Ok(next) => next.executed_all(commands.drop_first()),
            }
        }
    }
}

impl State {
    /// What commands make of the store, one after the other, up to the
    /// first that fails.
    pub open spec fn executed_while_ok(self, commands: Seq<KeyCommandView>) -> State
        decreases commands.len(),
    {
        if commands.len() == 0 {
            self
        } else {
            match self.executed(commands[0]) {
                Err(_) => self,
                Ok(next) => next.executed_while_ok(commands.drop_first()),
            }
        }
    }
}

/// Storing the keys of a rule by command stores them, also where there are
/// none.
pub proof fn lemma_create_for_rule(state: State, rule_id: Seq<char>, pairs: Seq<(Seq<char>, Seq<char>)>)
    ensures
        state.executed_all(create_for_rule(rule_id, pairs)) == state.keys_inserted(
            rows_for_rule(rule_id, pairs),
        ),
{
    let commands = create_for_rule(rule_id, pairs);
    if pairs.len() == 0 {
        assert(state.keys + rows_for_rule(rule_id, pairs) =~= state.keys);
    } else {
        assert(commands.drop_first() =~= Seq::empty());
        let next = state.executed(commands[0]);
        if next is Ok {
            assert(next->Ok_0.executed_all(Seq::empty()) == next);
        }
    }
}

/// Storing the keys of an object by command stores them, also where there
/// are none.
pub proof fn lemma_create_for_object(
    state: State,
    object_id: Seq<char>,
    pairs: Seq<(Seq<char>, Seq<char>)>,
)
    ensures
        state.executed_all(create_for_object(object_id, pairs)) == state.keys_inserted(
            rows_for_object(object_id, pairs),
        ),
{
    let commands = create_for_object(object_id, pairs);
    if pairs.len() == 0 {
        assert(state.keys + rows_for_object(object_id, pairs) =~= state.keys);
    } else {
        assert(commands.drop_first() =~= Seq::empty());
        let next = state.executed(commands[0]);
        if next is Ok {
            assert(next->Ok_0.executed_all(Seq::empty()) == next);
        }
    }
}

/// Replacing the keys of a rule by commands replaces them.
pub proof fn lemma_replace_for_rule(state: State, rule_id: Seq<char>, pairs: Seq<(Seq<char>, Seq<char>)>)
    ensures
        state.executed_all(replace_for_rule(rule_id, pairs)) == state.keys_updated_by_rule(
            rule_id,
            pairs,
        ),
{
    let commands = replace_for_rule(rule_id, pairs);
    assert(commands.drop_first() =~= create_for_rule(rule_id, pairs));
    lemma_create_for_rule(state.without_keys_of_rule(rule_id), rule_id, pairs);
}

/// Replacing the keys of an object by commands replaces them.
pub proof fn lemma_replace_for_object(
    state: State,
    object_id: Seq<char>,
    pairs: Seq<(Seq<char>, Seq<char>)>,
)
    ensures
        state.executed_all(replace_for_object(object_id, pairs)) == state.without_keys_of_object(
            object_id,
        ).keys_inserted(rows_for_object(object_id, pairs)),
{
    let commands = replace_for_object(object_id, pairs);
    assert(commands.drop_first() =~= create_for_object(object_id, pairs));
    lemma_create_for_object(state.without_keys_of_object(object_id), object_id, pairs);
}

/// The command that stores the keys of a rule; none where there are no
/// keys to store.
pub fn create_rule_keys(rule_id: String, keys: Vec<(String, String)>) -> (commands: Vec<KeyCommand>)
    ensures
        commands_view(commands@) == create_for_rule(rule_id@, pairs_view(keys@)),
{
    let mut commands: Vec<KeyCommand> = Vec::new();
    if !keys.is_empty() {
        commands.push(KeyCommand::CreateMany { rule_id, keys });
    }
    assert(commands_view(commands@) =~= create_for_rule(rule_id@, pairs_view(keys@)));
    commands
}

/// The command that stores the keys of an object; none where there are no
/// keys to store.
pub fn create_object_keys(object_id: String, keys: Vec<(String, String)>) -> (commands: Vec<KeyCommand>)
    ensures
        commands_view(commands@) == create_for_object(object_id@, pairs_view(keys@)),
{
    let mut commands: Vec<KeyCommand> = Vec::new();
    if !keys.is_empty() {
        commands.push(KeyCommand::CreateMany2 { object_id, keys });
    }
    assert(commands_view(commands@) =~= create_for_object(object_id@, pairs_view(keys@)));
    commands
}

/// The commands that put keys in the place of those that a rule has.
pub fn replace_rule_keys(rule_id: String, keys: Vec<(String, String)>) -> (commands: Vec<KeyCommand>)
    ensures
        commands_view(commands@) == replace_for_rule(rule_id@, pairs_view(keys@)),
{
    let mut commands: Vec<KeyCommand> = Vec::new();
    commands.push(KeyCommand::DeleteByRuleId(rule_id.clone()));
    if !keys.is_empty() {
        commands.push(KeyCommand::CreateMany { rule_id, keys });
    }
    assert(commands_view(commands@) =~= replace_for_rule(rule_id@, pairs_view(keys@)));
    commands
}

/// The commands that put keys in the place of those that an object has.
pub fn replace_object_keys(object_id: String, keys: Vec<(String, String)>) -> (commands: Vec<KeyCommand>)
    ensures
        commands_view(commands@) == replace_for_object(object_id@, pairs_view(keys@)),
{
    let mut commands: Vec<KeyCommand> = Vec::new();
    commands.push(KeyCommand::DeleteByObjectId(object_id.clone()));
    if !keys.is_empty() {
        commands.push(KeyCommand::CreateMany2 { object_id, keys });
    }
    assert(commands_view(commands@) =~= replace_for_object(object_id@, pairs_view(keys@)));
    commands
}

impl Database {
    /// Carries out a command on the keys.
    pub fn execute(&mut self, command: KeyCommand) -> (result: Result<(), DomainError>)
        ensures
            match result {
                Ok(()) => old(self)@.executed(command@) == Ok::<State, DomainErrorView>(final(self)@),
                Err(error) => old(self)@.executed(command@) == Err::<State, DomainErrorView>(error@)
                    && final(self)@ == old(self)@,
            },
    {
        match command {
            KeyCommand::DeleteByRuleId(rule_id) => {
                self.keys.delete_by_rule_id(rule_id);
                Ok(())
            },
            KeyCommand::DeleteByObjectId(object_id) => {
                self.keys.delete_by_object_id(object_id);
                Ok(())
            },
            KeyCommand::CreateMany { rule_id, keys } => self.keys.create_many(rule_id, keys),
            KeyCommand::CreateMany2 { object_id, keys } => self.keys.create_many2(object_id, keys),
        }
    }

    /// Carries out commands on the keys, one after the other, up to the
    /// first that fails.
    pub fn execute_all(&mut self, commands: Vec<KeyCommand>) -> (result: Result<(), DomainError>)
        ensures
            final(self)@ == old(self)@.executed_while_ok(commands_view(commands@)),
            match result {
                Ok(()) => old(self)@.executed_all(commands_view(commands@)) == Ok::<
                    State,
                    DomainErrorView,
                >(final(self)@),
                Err(error) => old(self)@.executed_all(commands_view(commands@)) == Err::<
                    State,
                    DomainErrorView,
                >(error@),
            },
    {
        let ghost all = commands_view(commands@);
        let mut queue = commands;
        let mut rest: Vec<KeyCommand> = Vec::new();
        // A command leaves a list at its end: turn the list round first.
        assert(commands_view(queue@) + commands_view(rest@).reverse() =~= all);
        while queue.len() > 0
            invariant
                commands_view(queue@) + commands_view(rest@).reverse() == all,
            decreases queue@.len(),
        {
            let ghost before_rest = commands_view(rest@);
            let ghost before = commands_view(queue@);
            let command = queue.pop().unwrap();
            rest.push(command);
            proof {
                assert(commands_view(queue@) =~= before.drop_last());
                assert(commands_view(rest@) =~= before_rest.push(command@));
                assert(commands_view(rest@).reverse() =~= seq![command@] + before_rest.reverse());
                assert(commands_view(queue@) + commands_view(rest@).reverse() =~= before
                    + before_rest.reverse());
            }
        }
        assert(commands_view(rest@).reverse() =~= all);
        while rest.len() > 0
            invariant
                all == commands_view(commands@),
                old(self)@.executed_all(all) == self@.executed_all(commands_view(rest@).reverse()),
                old(self)@.executed_while_ok(all) == self@.executed_while_ok(
                    commands_view(rest@).reverse(),
                ),
            decreases rest@.len(),
        {
            let ghost before = commands_view(rest@);
            let command = rest.pop().unwrap();
            let ghost state = self@;
            proof {
                assert(before.reverse().len() == before.len());
                assert(before.reverse()[0] == command@);
                assert(commands_view(rest@).reverse() =~= before.reverse().drop_first());
                assert(state.executed_all(before.reverse()) == match state.executed(command@) {
                    Err(error) => Err::<State, DomainErrorView>(error),
                    Ok(next) => next.executed_all(before.reverse().drop_first()),
                });
                assert(state.executed_while_ok(before.reverse()) == match state.executed(command@) {
                    Err(_) => state,
                    Ok(next) => next.executed_while_ok(before.reverse().drop_first()),
                });
            }
            self.execute(command)?;
        }
        assert(commands_view(rest@).reverse() =~= Seq::empty());
        Ok(())
    }
}

} // verus!
