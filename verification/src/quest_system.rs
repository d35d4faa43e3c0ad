use vstd::hash_map::StringHashMap;
use vstd::prelude::*;
use vstd::string::StringExecFns;

use crate::coin_manager::CoinReward;
use crate::text::{dec_digits, spec_contains, str_contains, str_eq, usize_to_dec};

verus! {

#[derive(Debug, Clone, Copy, PartialEq, Eq, Structural)]
pub enum QuestDifficulty {
    Beginner,
    Intermediate,
    Advanced,
}

pub open spec fn difficulty_description(d: QuestDifficulty) -> Seq<char> {
    match d {
        QuestDifficulty::Beginner => "Beginner"@,
        QuestDifficulty::Intermediate => "Intermediate"@,
        QuestDifficulty::Advanced => "Advanced"@,
    }
}

impl QuestDifficulty {
    pub fn description(&self) -> (r: &'static str)
        ensures
            r@ == difficulty_description(*self),
    {
        match self {
            QuestDifficulty::Beginner => "Beginner",
            QuestDifficulty::Intermediate => "Intermediate",
            QuestDifficulty::Advanced => "Advanced",
        }
    }
}

/// One condition a quest asks the session to meet.
#[derive(Debug, Clone, PartialEq)]
pub enum QuestObjective {
    ExecuteProgram { pattern: String },
    DefineFunction { min_params: usize },
    UseVariables { count: usize },
    ProduceOutput { expected: String },
    CreateVariable { name: Option<String> },
    CallFunction { name: Option<String> },
    PerformArithmetic,
}

/// Mathematical image of an objective.
#[verifier::ext_equal]
pub enum QuestObjectiveV {
    ExecuteProgram { pattern: Seq<char> },
    DefineFunction { min_params: nat },
    UseVariables { count: nat },
    ProduceOutput { expected: Seq<char> },
    CreateVariable { name: Option<Seq<char>> },
    CallFunction { name: Option<Seq<char>> },
    PerformArithmetic,
}

impl View for QuestObjective {
    type V = QuestObjectiveV;

    open spec fn view(&self) -> QuestObjectiveV {
        match self {
            QuestObjective::ExecuteProgram { pattern } => QuestObjectiveV::ExecuteProgram {
                pattern: pattern@,
            },
            QuestObjective::DefineFunction { min_params } => QuestObjectiveV::DefineFunction {
                min_params: *min_params as nat,
            },
            QuestObjective::UseVariables { count } => QuestObjectiveV::UseVariables {
                count: *count as nat,
            },
            QuestObjective::ProduceOutput { expected } => QuestObjectiveV::ProduceOutput {
                expected: expected@,
            },
            QuestObjective::CreateVariable { name } => QuestObjectiveV::CreateVariable {
                name: match name {
                    Some(n) => Some(n@),
                    None => None,
                },
            },
            QuestObjective::CallFunction { name } => QuestObjectiveV::CallFunction {
                name: match name {
                    Some(n) => Some(n@),
                    None => None,
                },
            },
            QuestObjective::PerformArithmetic => QuestObjectiveV::PerformArithmetic,
        }
    }
}

pub open spec fn objectives_view(v: Seq<QuestObjective>) -> Seq<QuestObjectiveV> {
    Seq::new(v.len(), |i: int| v[i]@)
}

/// The text an objective renders to.
pub open spec fn objective_description(o: QuestObjectiveV) -> Seq<char> {
    match o {
        QuestObjectiveV::ExecuteProgram { pattern } => "Execute a program matching pattern: "@
            + pattern,
        QuestObjectiveV::DefineFunction { min_params } => "Define a function with at least "@
            + dec_digits(min_params) + " parameters"@,
        QuestObjectiveV::UseVariables { count } => "Use "@ + dec_digits(count)
            + " variables in your program"@,
        QuestObjectiveV::ProduceOutput { expected } => "Produce output: "@ + expected,
        QuestObjectiveV::CreateVariable { name } => match name {
            Some(n) => "Create a variable named '"@ + n + "'"@,
            None => "Create any variable"@,
        },
        QuestObjectiveV::CallFunction { name } => match name {
            Some(n) => "Call function '"@ + n + "'"@,
            None => "Call any function"@,
        },
        QuestObjectiveV::PerformArithmetic => "Perform arithmetic operations"@,
    }
}

impl QuestObjective {
    pub fn description(&self) -> (s: String)
        ensures
            s@ == objective_description(self@),
    {
        match self {
            QuestObjective::ExecuteProgram { pattern } => "Execute a program matching pattern: "
                .to_owned().concat(pattern.as_str()),
            QuestObjective::DefineFunction { min_params } => {
                let n = usize_to_dec(*min_params);
                "Define a function with at least ".to_owned().concat(n.as_str()).concat(
                    " parameters",
                )
            },
            QuestObjective::UseVariables { count } => {
                let n = usize_to_dec(*count);
                "Use ".to_owned().concat(n.as_str()).concat(" variables in your program")
            },
            QuestObjective::ProduceOutput { expected } => "Produce output: ".to_owned().concat(
                expected.as_str(),
            ),
            QuestObjective::CreateVariable { name } => match name {
                Some(var_name) => "Create a variable named '".to_owned().concat(
                    var_name.as_str(),
                ).concat("'"),
                None => "Create any variable".to_owned(),
            },
            QuestObjective::CallFunction { name } => match name {
                Some(func_name) => "Call function '".to_owned().concat(func_name.as_str()).concat(
                    "'",
                ),
                None => "Call any function".to_owned(),
            },
            QuestObjective::PerformArithmetic => "Perform arithmetic operations".to_owned(),
        }
    }
}

/// One quest: what it asks for, what it pays, and where it stands.
#[derive(Debug, Clone, PartialEq)]
pub struct Quest {
    pub id: String,
    pub title: String,
    pub description: String,
    pub objectives: Vec<QuestObjective>,
    pub rewards: Vec<CoinReward>,
    pub completed: bool,
    pub difficulty: QuestDifficulty,
    pub prerequisites: Vec<String>,
    pub unlocked: bool,
}

/// Mathematical image of a quest.
#[verifier::ext_equal]
pub struct QuestV {
    pub id: Seq<char>,
    pub title: Seq<char>,
    pub description: Seq<char>,
    pub objectives: Seq<QuestObjectiveV>,
    pub rewards: Seq<CoinReward>,
    pub completed: bool,
    pub difficulty: QuestDifficulty,
    pub prerequisites: Seq<Seq<char>>,
    pub unlocked: bool,
}

impl View for Quest {
    type V = QuestV;

    open spec fn view(&self) -> QuestV {
        QuestV {
            id: self.id@,
            title: self.title@,
            description: self.description@,
            objectives: objectives_view(self.objectives@),
            rewards: self.rewards@,
            completed: self.completed,
            difficulty: self.difficulty,
            prerequisites: self.prerequisites.deep_view(),
            unlocked: self.unlocked,
        }
    }
}

pub open spec fn quests_view(v: Seq<Quest>) -> Seq<QuestV> {
    Seq::new(v.len(), |i: int| v[i]@)
}

impl Quest {
    pub fn new(
        id: String,
        title: String,
        description: String,
        objectives: Vec<QuestObjective>,
        rewards: Vec<CoinReward>,
    ) -> (r: Self)
        ensures
            r@ == (QuestV {
                id: id@,
                title: title@,
                description: description@,
                objectives: objectives_view(objectives@),
                rewards: rewards@,
                completed: false,
                difficulty: QuestDifficulty::Beginner,
                prerequisites: Seq::empty(),
                unlocked: true,
            }),
    {
        let r = Self {
            id,
            title,
            description,
            objectives,
            rewards,
            completed: false,
            difficulty: QuestDifficulty::Beginner,
            prerequisites: Vec::new(),
            unlocked: true,
        };
        proof {
            assert(r.prerequisites.deep_view() =~= Seq::<Seq<char>>::empty());
        }
        r
    }

    /// A quest with prerequisites starts locked; one without starts
    /// unlocked.
    pub fn new_with_difficulty(
        id: String,
        title: String,
        description: String,
        objectives: Vec<QuestObjective>,
        rewards: Vec<CoinReward>,
        difficulty: QuestDifficulty,
        prerequisites: Vec<String>,
    ) -> (r: Self)
        ensures
            r@ == (QuestV {
                id: id@,
                title: title@,
                description: description@,
                objectives: objectives_view(objectives@),
                rewards: rewards@,
                completed: false,
                difficulty,
                prerequisites: prerequisites.deep_view(),
                unlocked: prerequisites.deep_view().len() == 0,
            }),
    {
        let unlocked = prerequisites.is_empty();
        Self {
            id,
            title,
            description,
            objectives,
            rewards,
            completed: false,
            difficulty,
            prerequisites,
            unlocked,
        }
    }

    pub fn is_completed(&self) -> (r: bool)
        ensures
            r == self@.completed,
    {
        self.completed
    }

    pub fn is_unlocked(&self) -> (r: bool)
        ensures
            r == self@.unlocked,
    {
        self.unlocked
    }

    pub fn mark_completed(&mut self)
        ensures
            final(self)@ == (QuestV { completed: true, ..old(self)@ }),
    {
        self.completed = true;
    }

    pub fn unlock(&mut self)
        ensures
            final(self)@ == (QuestV { unlocked: true, ..old(self)@ }),
    {
        self.unlocked = true;
    }

    pub fn get_difficulty_description(&self) -> (s: String)
        ensures
            s@ == "["@ + difficulty_description(self@.difficulty) + "] "@ + self@.title,
    {
        "[".to_owned().concat(self.difficulty.description()).concat("] ").concat(
            self.title.as_str(),
        )
    }
}

/// One function definition as the quest tracker records it.
#[derive(Debug, Clone)]
pub struct FunctionDef {
    pub name: String,
    pub params: Vec<String>,
    pub body: String,
}

/// Mathematical image of a recorded function definition.
pub struct FunctionDefV {
    pub name: Seq<char>,
    pub params: Seq<Seq<char>>,
    pub body: Seq<char>,
}

impl View for FunctionDef {
    type V = FunctionDefV;

    open spec fn view(&self) -> FunctionDefV {
        FunctionDefV { name: self.name@, params: self.params.deep_view(), body: self.body@ }
    }
}

/// The recorded function definitions, keyed by name, last write wins.
pub struct FunctionMap {
    entries: Vec<FunctionDef>,
}

spec fn fnmap_of(s: Seq<FunctionDef>) -> Map<Seq<char>, FunctionDefV>
    decreases s.len(),
{
    if s.len() == 0 {
        Map::empty()
    } else {
        fnmap_of(s.drop_last()).insert(s.last().name@, s.last()@)
    }
}

impl View for FunctionMap {
    type V = Map<Seq<char>, FunctionDefV>;

    closed spec fn view(&self) -> Map<Seq<char>, FunctionDefV> {
        fnmap_of(self.entries@)
    }
}

proof fn lemma_fnmap_finite(s: Seq<FunctionDef>)
    ensures
        fnmap_of(s).dom().finite(),
    decreases s.len(),
{
    if s.len() > 0 {
        lemma_fnmap_finite(s.drop_last());
    }
}

proof fn lemma_fnmap_absent(s: Seq<FunctionDef>, k: Seq<char>)
    requires
        forall|j: int| 0 <= j < s.len() ==> (#[trigger] s[j]).name@ != k,
    ensures
        !fnmap_of(s).dom().contains(k),
    decreases s.len(),
{
    if s.len() > 0 {
        lemma_fnmap_absent(s.drop_last(), k);
    }
}

impl FunctionMap {
    /// Names are unique: one entry per recorded name.
    pub closed spec fn wf(self) -> bool {
        forall|i: int, j: int|
            0 <= i < j < self.entries@.len() ==> (#[trigger] self.entries@[i]).name@ != (
            #[trigger] self.entries@[j]).name@
    }

    proof fn lemma_len(self)
        requires
            self.wf(),
        ensures
            self@.dom().finite(),
            self@.dom().len() == self.entries@.len(),
    {
        lemma_fnmap_len_rec(self.entries@);
    }

    pub fn new() -> (r: Self)
        ensures
            r@ == Map::<Seq<char>, FunctionDefV>::empty(),
            r.wf(),
    {
        FunctionMap { entries: Vec::new() }
    }

    pub fn len(&self) -> (r: usize)
        requires
            self.wf(),
        ensures
            self@.dom().finite(),
            r == self@.dom().len(),
    {
        proof {
            self.lemma_len();
        }
        self.entries.len()
    }

    /// Records a definition, replacing any earlier one of the name.
    #[verifier::loop_isolation(false)]
    pub fn insert(&mut self, def: FunctionDef)
        requires
            old(self).wf(),
        ensures
            final(self).wf(),
            final(self)@ == old(self)@.insert(def@.name, def@),
    {
        let n = self.entries.len();
        let mut i: usize = 0;
        while i < n
            invariant
                i <= n,
                self.entries@ == old(self).entries@,
                forall|j: int| 0 <= j < i ==> (#[trigger] self.entries@[j]).name@ != def.name@,
            decreases n - i,
        {
            if str_eq(self.entries[i].name.as_str(), def.name.as_str()) {
                proof {
                    lemma_fnmap_update(self.entries@, i as int, def);
                }
                let ghost s0 = self.entries@;
                self.entries.set(i, def);
                proof {
                    assert forall|p: int, q: int| 0 <= p < q < self.entries@.len() implies (
                    #[trigger] self.entries@[p]).name@ != (#[trigger] self.entries@[q]).name@ by {
                        assert(s0[p].name@ != s0[q].name@);
                    }
                }
                return ;
            }
            i = i + 1;
        }
        let ghost s0 = self.entries@;
        self.entries.push(def);
        proof {
            assert(self.entries@.drop_last() =~= s0);
            assert forall|p: int, q: int| 0 <= p < q < self.entries@.len() implies (
            #[trigger] self.entries@[p]).name@ != (#[trigger] self.entries@[q]).name@ by {
                if q < s0.len() {
                    assert(s0[p].name@ != s0[q].name@);
                } else {
                    assert(self.entries@[q] == def);
                    assert(s0[p].name@ != def.name@);
                }
            }
        }
    }

    /// Whether any recorded definition takes at least min parameters.
    #[verifier::loop_isolation(false)]
    pub fn any_with_min_params(&self, min: usize) -> (r: bool)
        requires
            self.wf(),
        ensures
            r == exists|k: Seq<char>|
                #[trigger] self@.dom().contains(k) && self@[k].params.len() >= min,
    {
        let n = self.entries.len();
        let mut i: usize = 0;
        while i < n
            invariant
                self.wf(),
                n == self.entries@.len(),
                i <= n,
                forall|j: int| 0 <= j < i ==> (#[trigger] self.entries@[j])@.params.len() < min,
            decreases n - i,
        {
            proof {
                assert(self.entries@[i as int]@.params.len() == self.entries[i as int].params@.len());
            }
            if self.entries[i].params.len() >= min {
                proof {
                    lemma_fnmap_found(self.entries@, i as int);
                    assert(self@.dom().contains(self.entries@[i as int].name@) && self@[
                        self.entries@[i as int].name@
                    ].params.len() >= min);
                }
                return true;
            }
            i = i + 1;
        }
        proof {
            if exists|k: Seq<char>|
                #[trigger] self@.dom().contains(k) && self@[k].params.len() >= min {
                let k = choose|k: Seq<char>|
                    #[trigger] self@.dom().contains(k) && self@[k].params.len() >= min;
                lemma_fnmap_all_short(self.entries@, k, min as nat);
            }
        }
        false
    }
}

proof fn lemma_fnmap_len_rec(s: Seq<FunctionDef>)
    requires
        forall|i: int, j: int|
            0 <= i < j < s.len() ==> (#[trigger] s[i]).name@ != (#[trigger] s[j]).name@,
    ensures
        fnmap_of(s).dom().finite(),
        fnmap_of(s).dom().len() == s.len(),
    decreases s.len(),
{
    lemma_fnmap_finite(s);
    if s.len() > 0 {
        assert(forall|i: int, j: int|
            0 <= i < j < s.drop_last().len() ==> (#[trigger] s.drop_last()[i]).name@ != (
            #[trigger] s.drop_last()[j]).name@) by {
            assert(forall|i: int| 0 <= i < s.len() - 1 ==> s.drop_last()[i] == #[trigger] s[i]);
        }
        lemma_fnmap_len_rec(s.drop_last());
        assert(forall|j: int| 0 <= j < s.drop_last().len() ==> (#[trigger] s.drop_last()[j]).name@
            != s.last().name@) by {
            assert(forall|i: int| 0 <= i < s.len() - 1 ==> s.drop_last()[i] == #[trigger] s[i]);
        }
        lemma_fnmap_absent(s.drop_last(), s.last().name@);
        assert(fnmap_of(s).dom() =~= fnmap_of(s.drop_last()).dom().insert(s.last().name@));
    }
}

proof fn lemma_fnmap_found(s: Seq<FunctionDef>, i: int)
    requires
        0 <= i < s.len(),
        forall|p: int, q: int|
            0 <= p < q < s.len() ==> (#[trigger] s[p]).name@ != (#[trigger] s[q]).name@,
    ensures
        fnmap_of(s).dom().contains(s[i].name@),
        fnmap_of(s)[s[i].name@] == s[i]@,
    decreases s.len(),
{
    if i == s.len() - 1 {
    } else {
        assert(forall|p: int, q: int|
            0 <= p < q < s.drop_last().len() ==> (#[trigger] s.drop_last()[p]).name@ != (
            #[trigger] s.drop_last()[q]).name@) by {
            assert(forall|p: int| 0 <= p < s.len() - 1 ==> s.drop_last()[p] == #[trigger] s[p]);
        }
        assert(s.drop_last()[i] == s[i]);
        lemma_fnmap_found(s.drop_last(), i);
        assert(s[i].name@ != s.last().name@);
    }
}

proof fn lemma_fnmap_all_short(s: Seq<FunctionDef>, k: Seq<char>, min: nat)
    requires
        forall|j: int| 0 <= j < s.len() ==> (#[trigger] s[j])@.params.len() < min,
        fnmap_of(s).dom().contains(k),
    ensures
        fnmap_of(s)[k].params.len() < min,
    decreases s.len(),
{
    if s.len() > 0 {
        if s.last().name@ == k {
        } else {
            assert(forall|j: int| 0 <= j < s.len() - 1 ==> s.drop_last()[j] == #[trigger] s[j]);
            lemma_fnmap_all_short(s.drop_last(), k, min);
        }
    }
}

proof fn lemma_fnmap_update(s: Seq<FunctionDef>, i: int, def: FunctionDef)
    requires
        0 <= i < s.len(),
        s[i].name@ == def.name@,
        forall|p: int, q: int|
            0 <= p < q < s.len() ==> (#[trigger] s[p]).name@ != (#[trigger] s[q]).name@,
    ensures
        fnmap_of(s.update(i, def)) == fnmap_of(s).insert(def.name@, def@),
    decreases s.len(),
{
    if i == s.len() - 1 {
        assert(s.update(i, def).drop_last() =~= s.drop_last());
        assert(s.update(i, def).last() == def);
        assert(fnmap_of(s).insert(def.name@, def@) =~= fnmap_of(s.drop_last()).insert(
            s.last().name@,
            s.last()@,
        ).insert(def.name@, def@));
        assert(fnmap_of(s.drop_last()).insert(s.last().name@, s.last()@).insert(def.name@, def@)
            =~= fnmap_of(s.drop_last()).insert(def.name@, def@));
    } else {
        assert(forall|p: int, q: int|
            0 <= p < q < s.drop_last().len() ==> (#[trigger] s.drop_last()[p]).name@ != (
            #[trigger] s.drop_last()[q]).name@) by {
            assert(forall|p: int| 0 <= p < s.len() - 1 ==> s.drop_last()[p] == #[trigger] s[p]);
        }
        assert(s.drop_last()[i] == s[i]);
        lemma_fnmap_update(s.drop_last(), i, def);
        assert(s.update(i, def).drop_last() =~= s.drop_last().update(i, def));
        assert(s.update(i, def).last() == s.last());
        assert(s[i].name@ != s.last().name@);
        assert(fnmap_of(s.update(i, def)) =~= fnmap_of(s.drop_last().update(i, def)).insert(
            s.last().name@,
            s.last()@,
        ));
        assert(fnmap_of(s.drop_last()).insert(def.name@, def@).insert(s.last().name@, s.last()@)
            =~= fnmap_of(s.drop_last()).insert(s.last().name@, s.last()@).insert(
            def.name@,
            def@,
        ));
    }
}

/// What one execution left behind, read by the quest tracker.
pub struct ExecutionContext {
    pub variables: StringHashMap<i64>,
    pub functions: FunctionMap,
    pub output: Vec<String>,
    pub executed_expressions: Vec<String>,
}

/// Mathematical image of an execution context.
#[verifier::ext_equal]
pub struct ExecutionContextV {
    pub variables: Map<Seq<char>, i64>,
    pub functions: Map<Seq<char>, FunctionDefV>,
    pub output: Seq<Seq<char>>,
    pub executed: Seq<Seq<char>>,
}

impl View for ExecutionContext {
    type V = ExecutionContextV;

    open spec fn view(&self) -> ExecutionContextV {
        ExecutionContextV {
            variables: self.variables@,
            functions: self.functions@,
            output: self.output.deep_view(),
            executed: self.executed_expressions.deep_view(),
        }
    }
}

impl ExecutionContext {
    pub open spec fn wf(self) -> bool {
        self.functions.wf()
    }

    pub fn new() -> (r: Self)
        ensures
            r.wf(),
            r@.variables == Map::<Seq<char>, i64>::empty(),
            r@.functions == Map::<Seq<char>, FunctionDefV>::empty(),
            r@.output == Seq::<Seq<char>>::empty(),
            r@.executed == Seq::<Seq<char>>::empty(),
    {
        let r = Self {
            variables: StringHashMap::new(),
            functions: FunctionMap::new(),
            output: Vec::new(),
            executed_expressions: Vec::new(),
        };
        proof {
            assert(r.output.deep_view() =~= Seq::<Seq<char>>::empty());
            assert(r.executed_expressions.deep_view() =~= Seq::<Seq<char>>::empty());
        }
        r
    }

    pub fn add_variable(&mut self, name: String, value: i64)
        requires
            old(self).wf(),
        ensures
            final(self).wf(),
            final(self)@ == (ExecutionContextV {
                variables: old(self)@.variables.insert(name@, value),
                ..old(self)@
            }),
    {
        self.variables.insert(name, value);
    }

    pub fn add_function(&mut self, name: String, params: Vec<String>, body: String)
        requires
            old(self).wf(),
        ensures
            final(self).wf(),
            final(self)@ == (ExecutionContextV {
                functions: old(self)@.functions.insert(
                    name@,
                    FunctionDefV { name: name@, params: params.deep_view(), body: body@ },
                ),
                ..old(self)@
            }),
    {
        let def = FunctionDef { name: name.clone(), params, body };
        self.functions.insert(def);
    }

    pub fn add_output(&mut self, output: String)
        requires
            old(self).wf(),
        ensures
            final(self).wf(),
            final(self)@ == (ExecutionContextV {
                output: old(self)@.output.push(output@),
                ..old(self)@
            }),
    {
        let ghost o0 = self.output.deep_view();
        self.output.push(output);
        proof {
            assert(self.output.deep_view() =~= o0.push(output@));
        }
    }

    pub fn record_expression(&mut self, expr_type: String)
        requires
            old(self).wf(),
        ensures
            final(self).wf(),
            final(self)@ == (ExecutionContextV {
                executed: old(self)@.executed.push(expr_type@),
                ..old(self)@
            }),
    {
        let ghost e0 = self.executed_expressions.deep_view();
        self.executed_expressions.push(expr_type);
        proof {
            assert(self.executed_expressions.deep_view() =~= e0.push(expr_type@));
        }
    }
}

impl Default for ExecutionContext {
    fn default() -> (r: Self)
        ensures
            r.wf(),
            r@.variables == Map::<Seq<char>, i64>::empty(),
            r@.functions == Map::<Seq<char>, FunctionDefV>::empty(),
            r@.output == Seq::<Seq<char>>::empty(),
            r@.executed == Seq::<Seq<char>>::empty(),
    {
        Self::new()
    }
}


/// Whether the session state meets one objective.
pub open spec fn objective_met(o: QuestObjectiveV, c: ExecutionContextV) -> bool {
    match o {
        QuestObjectiveV::ExecuteProgram { pattern } => exists|i: int|
            0 <= i < c.executed.len() && spec_contains(#[trigger] c.executed[i], pattern),
        QuestObjectiveV::DefineFunction { min_params } => exists|k: Seq<char>|
            #[trigger] c.functions.dom().contains(k) && c.functions[k].params.len() >= min_params,
        QuestObjectiveV::UseVariables { count } => c.variables.dom().len() >= count,
        QuestObjectiveV::ProduceOutput { expected } => exists|i: int|
            0 <= i < c.output.len() && #[trigger] c.output[i] == expected,
        QuestObjectiveV::CreateVariable { name } => match name {
            Some(n) => c.variables.dom().contains(n),
            None => !c.variables.is_empty(),
        },
        QuestObjectiveV::CallFunction { name } => match name {
            Some(n) => exists|i: int|
                0 <= i < c.executed.len() && spec_contains(#[trigger] c.executed[i], "FnCall"@)
                    && spec_contains(c.executed[i], n),
            None => exists|i: int|
                0 <= i < c.executed.len() && spec_contains(#[trigger] c.executed[i], "FnCall"@),
        },
        QuestObjectiveV::PerformArithmetic => exists|i: int|
            0 <= i < c.executed.len() && (spec_contains(#[trigger] c.executed[i], "Binary"@)
                || spec_contains(c.executed[i], "arithmetic"@)),
    }
}

/// Whether the session state meets every objective of a quest.
pub open spec fn objectives_met(q: QuestV, c: ExecutionContextV) -> bool {
    forall|i: int| 0 <= i < q.objectives.len() ==> objective_met(#[trigger] q.objectives[i], c)
}

/// A quest that would complete now: not yet completed, all objectives
/// met. Locked quests complete too; the tracker never filters them.
pub open spec fn eligible(q: QuestV, c: ExecutionContextV) -> bool {
    !q.completed && objectives_met(q, c)
}

/// Mathematical image of the tracker: the active and the completed
/// quest lists.
#[verifier::ext_equal]
pub struct QuestManagerV {
    pub active: Seq<QuestV>,
    pub completed: Seq<QuestV>,
}

pub open spec fn has_quest_s(m: QuestManagerV, id: Seq<char>) -> bool {
    (exists|i: int| 0 <= i < m.active.len() && (#[trigger] m.active[i]).id == id) || (exists|i: int|
        0 <= i < m.completed.len() && (#[trigger] m.completed[i]).id == id)
}

pub open spec fn add_quest_s(m: QuestManagerV, q: QuestV) -> QuestManagerV {
    if has_quest_s(m, q.id) {
        m
    } else {
        QuestManagerV { active: m.active.push(q), completed: m.completed }
    }
}

/// The unlocked, not yet completed quests, in order.
pub open spec fn available_s(qs: Seq<QuestV>) -> Seq<QuestV>
    decreases qs.len(),
{
    if qs.len() == 0 {
        Seq::empty()
    } else {
        let rest = available_s(qs.drop_last());
        if qs.last().unlocked && !qs.last().completed {
            rest.push(qs.last())
        } else {
            rest
        }
    }
}

/// The still locked quests, in order.
pub open spec fn locked_s(qs: Seq<QuestV>) -> Seq<QuestV>
    decreases qs.len(),
{
    if qs.len() == 0 {
        Seq::empty()
    } else {
        let rest = locked_s(qs.drop_last());
        if !qs.last().unlocked {
            rest.push(qs.last())
        } else {
            rest
        }
    }
}

/// Whether one prerequisite of a quest appears among the completed
/// quests.
pub open spec fn prereq_satisfied(q: QuestV, completed: Seq<QuestV>, p: int) -> bool {
    exists|j: int| 0 <= j < completed.len() && (#[trigger] completed[j]).id == q.prerequisites[p]
}

/// Whether every prerequisite of a quest appears among the completed
/// quests.
pub open spec fn prereqs_met(q: QuestV, completed: Seq<QuestV>) -> bool {
    forall|p: int| 0 <= p < q.prerequisites.len() ==> #[trigger] prereq_satisfied(q, completed, p)
}

/// Whether completing the named quest unlocks this one: still locked,
/// names the finished quest as a prerequisite, and every prerequisite
/// is now completed.
pub open spec fn should_unlock(q: QuestV, completed: Seq<QuestV>, id: Seq<char>) -> bool {
    &&& !q.unlocked
    &&& exists|p: int| 0 <= p < q.prerequisites.len() && #[trigger] q.prerequisites[p] == id
    &&& prereqs_met(q, completed)
}

/// One unlocking sweep over the active list after a quest completed.
pub open spec fn unlock_pass(active: Seq<QuestV>, completed: Seq<QuestV>, id: Seq<char>) -> Seq<
    QuestV,
> {
    Seq::new(
        active.len(),
        |i: int|
            if should_unlock(active[i], completed, id) {
                QuestV { unlocked: true, ..active[i] }
            } else {
                active[i]
            },
    )
}

/// The rewards the eligible quests pay, in list order.
pub open spec fn rewards_from(active: Seq<QuestV>, c: ExecutionContextV) -> Seq<CoinReward>
    decreases active.len(),
{
    if active.len() == 0 {
        Seq::empty()
    } else {
        (if eligible(active[0], c) {
            active[0].rewards
        } else {
            Seq::empty()
        }) + rewards_from(active.drop_first(), c)
    }
}

/// The positions of the eligible quests, ascending.
pub open spec fn winner_idxs(active: Seq<QuestV>, c: ExecutionContextV) -> Seq<int>
    decreases active.len(),
{
    if active.len() == 0 {
        Seq::empty()
    } else {
        let rest = winner_idxs(active.drop_last(), c);
        if eligible(active.last(), c) {
            rest.push(active.len() - 1)
        } else {
            rest
        }
    }
}

/// Completing the quest at one position: it leaves the active list
/// marked completed, joins the completed list, and triggers an
/// unlocking sweep.
pub open spec fn complete_one(m: QuestManagerV, i: int) -> QuestManagerV {
    if 0 <= i < m.active.len() {
        let q = QuestV { completed: true, ..m.active[i] };
        let active2 = m.active.remove(i);
        let completed2 = m.completed.push(q);
        QuestManagerV { active: unlock_pass(active2, completed2, q.id), completed: completed2 }
    } else {
        m
    }
}

/// Completing a list of positions, highest first.
pub open spec fn complete_process(m: QuestManagerV, idxs: Seq<int>) -> QuestManagerV
    decreases idxs.len(),
{
    if idxs.len() == 0 {
        m
    } else {
        complete_process(complete_one(m, idxs.last()), idxs.drop_last())
    }
}

/// The quest a lookup by id finds: the first match among the active
/// quests, else the first among the completed.
pub open spec fn first_match(qs: Seq<QuestV>, id: Seq<char>) -> Option<int>
    decreases qs.len(),
{
    if qs.len() == 0 {
        None
    } else if qs[0].id == id {
        Some(0int)
    } else {
        match first_match(qs.drop_first(), id) {
            Some(i) => Some(i + 1),
            None => None,
        }
    }
}

pub open spec fn quest_by_id_s(m: QuestManagerV, id: Seq<char>) -> Option<QuestV> {
    match first_match(m.active, id) {
        Some(i) => Some(m.active[i]),
        None => match first_match(m.completed, id) {
            Some(i) => Some(m.completed[i]),
            None => None,
        },
    }
}

/// Tracks which quests are open, checks them against execution state,
/// and hands out their rewards.
#[derive(Debug)]
pub struct QuestManager {
    active_quests: Vec<Quest>,
    completed_quests: Vec<Quest>,
}

proof fn lemma_quests_view_push(qs: Seq<Quest>, q: Quest)
    ensures
        quests_view(qs.push(q)) == quests_view(qs).push(q@),
{
    assert(quests_view(qs.push(q)) =~= quests_view(qs).push(q@));
}

proof fn lemma_first_match_absent(qs: Seq<QuestV>, id: Seq<char>)
    requires
        forall|j: int| 0 <= j < qs.len() ==> (#[trigger] qs[j]).id != id,
    ensures
        first_match(qs, id) is None,
    decreases qs.len(),
{
    if qs.len() > 0 {
        assert(forall|j: int|
            0 <= j < qs.len() - 1 ==> qs.drop_first()[j] == #[trigger] qs[j + 1]);
        lemma_first_match_absent(qs.drop_first(), id);
    }
}

/// first_match finds the least matching position.
proof fn lemma_first_match_prefix(qs: Seq<QuestV>, i: int, id: Seq<char>)
    requires
        0 <= i < qs.len(),
        forall|j: int| 0 <= j < i ==> (#[trigger] qs[j]).id != id,
        qs[i].id == id,
    ensures
        first_match(qs, id) == Some(i),
    decreases i,
{
    if i > 0 {
        assert(forall|j: int| 0 <= j < i - 1 ==> qs.drop_first()[j] == #[trigger] qs[j + 1]);
        assert(qs.drop_first()[i - 1] == qs[i]);
        lemma_first_match_prefix(qs.drop_first(), i - 1, id);
    }
}

impl QuestManager {
    pub closed spec fn view(self) -> QuestManagerV {
        QuestManagerV {
            active: quests_view(self.active_quests@),
            completed: quests_view(self.completed_quests@),
        }
    }

    pub fn new() -> (r: Self)
        ensures
            r@.active == Seq::<QuestV>::empty(),
            r@.completed == Seq::<QuestV>::empty(),
    {
        let r = Self { active_quests: Vec::new(), completed_quests: Vec::new() };
        proof {
            assert(quests_view(r.active_quests@) =~= Seq::<QuestV>::empty());
            assert(quests_view(r.completed_quests@) =~= Seq::<QuestV>::empty());
        }
        r
    }

    /// Adds a quest unless one of the same id is already tracked.
    pub fn add_quest(&mut self, quest: Quest)
        ensures
            final(self)@ == add_quest_s(old(self)@, quest@),
    {
        let known = self.has_quest(quest.id.as_str());
        if !known {
            let ghost a0 = self.active_quests@;
            self.active_quests.push(quest);
            proof {
                lemma_quests_view_push(a0, self.active_quests@.last());
                assert(self.active_quests@.drop_last() =~= a0);
            }
        }
    }

    #[verifier::loop_isolation(false)]
    pub fn has_quest(&self, quest_id: &str) -> (r: bool)
        ensures
            r == has_quest_s(self@, quest_id@),
    {
        let n = self.active_quests.len();
        let mut i: usize = 0;
        while i < n
            invariant
                n == self.active_quests@.len(),
                i <= n,
                forall|j: int|
                    0 <= j < i ==> (#[trigger] quests_view(self.active_quests@)[j]).id
                        != quest_id@,
            decreases n - i,
        {
            if str_eq(self.active_quests[i].id.as_str(), quest_id) {
                proof {
                    assert(quests_view(self.active_quests@)[i as int].id == quest_id@);
                }
                return true;
            }
            i = i + 1;
        }
        let m = self.completed_quests.len();
        let mut k: usize = 0;
        while k < m
            invariant
                m == self.completed_quests@.len(),
                k <= m,
                forall|j: int|
                    0 <= j < k ==> (#[trigger] quests_view(self.completed_quests@)[j]).id
                        != quest_id@,
                forall|j: int|
                    0 <= j < self.active_quests@.len() ==> (#[trigger] quests_view(
                        self.active_quests@,
                    )[j]).id != quest_id@,
            decreases m - k,
        {
            if str_eq(self.completed_quests[k].id.as_str(), quest_id) {
                proof {
                    assert(quests_view(self.completed_quests@)[k as int].id == quest_id@);
                }
                return true;
            }
            k = k + 1;
        }
        false
    }

    #[verifier::loop_isolation(false)]
    pub fn get_available_quests(&self) -> (r: Vec<&Quest>)
        ensures
            r@.len() == available_s(self@.active).len(),
            forall|i: int| 0 <= i < r@.len() ==> (#[trigger] r@[i])@ == available_s(self@.active)[i],
    {
        let n = self.active_quests.len();
        let mut r: Vec<&Quest> = Vec::new();
        let mut i: usize = 0;
        proof {
            assert(quests_view(self.active_quests@).take(0) =~= Seq::<QuestV>::empty());
        }
        while i < n
            invariant
                n == self.active_quests@.len(),
                i <= n,
                r@.len() == available_s(quests_view(self.active_quests@).take(i as int)).len(),
                forall|j: int|
                    0 <= j < r@.len() ==> (#[trigger] r@[j])@ == available_s(
                        quests_view(self.active_quests@).take(i as int),
                    )[j],
            decreases n - i,
        {
            let ghost av = quests_view(self.active_quests@);
            proof {
                assert(av.take(i + 1).drop_last() =~= av.take(i as int));
                assert(av.take(i + 1).last() == av[i as int]);
            }
            let q = &self.active_quests[i];
            if q.is_unlocked() && !q.is_completed() {
                r.push(q);
            }
            i = i + 1;
        }
        proof {
            assert(quests_view(self.active_quests@).take(n as int) =~= quests_view(
                self.active_quests@,
            ));
        }
        r
    }

    #[verifier::loop_isolation(false)]
    pub fn get_locked_quests(&self) -> (r: Vec<&Quest>)
        ensures
            r@.len() == locked_s(self@.active).len(),
            forall|i: int| 0 <= i < r@.len() ==> (#[trigger] r@[i])@ == locked_s(self@.active)[i],
    {
        let n = self.active_quests.len();
        let mut r: Vec<&Quest> = Vec::new();
        let mut i: usize = 0;
        proof {
            assert(quests_view(self.active_quests@).take(0) =~= Seq::<QuestV>::empty());
        }
        while i < n
            invariant
                n == self.active_quests@.len(),
                i <= n,
                r@.len() == locked_s(quests_view(self.active_quests@).take(i as int)).len(),
                forall|j: int|
                    0 <= j < r@.len() ==> (#[trigger] r@[j])@ == locked_s(
                        quests_view(self.active_quests@).take(i as int),
                    )[j],
            decreases n - i,
        {
            let ghost av = quests_view(self.active_quests@);
            proof {
                assert(av.take(i + 1).drop_last() =~= av.take(i as int));
                assert(av.take(i + 1).last() == av[i as int]);
            }
            let q = &self.active_quests[i];
            if !q.is_unlocked() {
                r.push(q);
            }
            i = i + 1;
        }
        proof {
            assert(quests_view(self.active_quests@).take(n as int) =~= quests_view(
                self.active_quests@,
            ));
        }
        r
    }

    pub fn get_active_quests(&self) -> (r: &Vec<Quest>)
        ensures
            quests_view(r@) == self@.active,
    {
        &self.active_quests
    }

    pub fn get_completed_quests(&self) -> (r: &Vec<Quest>)
        ensures
            quests_view(r@) == self@.completed,
    {
        &self.completed_quests
    }

    /// Unlocks every quest whose prerequisites are all completed now
    /// that the named quest is done.
    #[verifier::loop_isolation(false)]
    pub fn unlock_dependent_quests(&mut self, completed_quest_id: &str)
        ensures
            final(self)@ == (QuestManagerV {
                active: unlock_pass(old(self)@.active, old(self)@.completed, completed_quest_id@),
                completed: old(self)@.completed,
            }),
    {
        let n = self.active_quests.len();
        let mut i: usize = 0;
        while i < n
            invariant
                n == self.active_quests@.len(),
                i <= n,
                self.completed_quests@ == old(self).completed_quests@,
                quests_view(self.active_quests@).len() == n,
                forall|j: int|
                    i <= j < n ==> quests_view(self.active_quests@)[j] == #[trigger] quests_view(
                        old(self).active_quests@,
                    )[j],
                forall|j: int|
                    0 <= j < i ==> quests_view(self.active_quests@)[j] == #[trigger] unlock_pass(
                        quests_view(old(self).active_quests@),
                        quests_view(old(self).completed_quests@),
                        completed_quest_id@,
                    )[j],
            decreases n - i,
        {
            let ghost a_loop = self.active_quests@;
            let mentions = self.quest_mentions_prereq(i, completed_quest_id);
            let locked = !self.active_quests[i].is_unlocked();
            if locked && mentions {
                let met = self.all_prereqs_met(i);
                if met {
                    let q = self.active_quests.remove(i);
                    let q2 = Quest { unlocked: true, ..q };
                    self.active_quests.insert(i, q2);
                    proof {
                        assert(self.active_quests@ =~= a_loop.update(i as int, q2));
                        assert(q2@ == (QuestV { unlocked: true, ..quests_view(a_loop)[i as int] }));
                        assert(forall|j: int|
                            0 <= j < a_loop.len() && j != i ==> quests_view(self.active_quests@)[j]
                                == #[trigger] quests_view(a_loop)[j]);
                    }
                }
            }
            i = i + 1;
        }
        proof {
            assert(quests_view(self.active_quests@) =~= unlock_pass(
                quests_view(old(self).active_quests@),
                quests_view(old(self).completed_quests@),
                completed_quest_id@,
            ));
        }
    }

    /// Whether quest i names the id among its prerequisites.
    #[verifier::loop_isolation(false)]
    fn quest_mentions_prereq(&self, i: usize, id: &str) -> (r: bool)
        requires
            i < self.active_quests@.len(),
        ensures
            r == exists|p: int|
                0 <= p < quests_view(self.active_quests@)[i as int].prerequisites.len()
                    && #[trigger] quests_view(self.active_quests@)[i as int].prerequisites[p]
                    == id@,
    {
        let q = &self.active_quests[i];
        let m = q.prerequisites.len();
        let mut p: usize = 0;
        while p < m
            invariant
                i < self.active_quests@.len(),
                q == &self.active_quests[i as int],
                m == q.prerequisites@.len(),
                p <= m,
                forall|j: int| 0 <= j < p ==> #[trigger] q.prerequisites@[j]@ != id@,
            decreases m - p,
        {
            if str_eq(q.prerequisites[p].as_str(), id) {
                proof {
                    assert(quests_view(self.active_quests@)[i as int].prerequisites[p as int]
                        == id@);
                }
                return true;
            }
            p = p + 1;
        }
        proof {
            assert(forall|j: int|
                0 <= j < quests_view(self.active_quests@)[i as int].prerequisites.len()
                    ==> #[trigger] quests_view(self.active_quests@)[i as int].prerequisites[j]
                    != id@);
        }
        false
    }

    /// Whether every prerequisite of quest i is among the completed.
    #[verifier::loop_isolation(false)]
    fn all_prereqs_met(&self, i: usize) -> (r: bool)
        requires
            i < self.active_quests@.len(),
        ensures
            r == prereqs_met(
                quests_view(self.active_quests@)[i as int],
                quests_view(self.completed_quests@),
            ),
    {
        let q = &self.active_quests[i];
        let m = q.prerequisites.len();
        let ghost qv = quests_view(self.active_quests@)[i as int];
        let ghost cv = quests_view(self.completed_quests@);
        proof {
            assert(forall|j: int|
                0 <= j < m ==> #[trigger] qv.prerequisites[j] == q.prerequisites@[j]@);
        }
        let mut p: usize = 0;
        while p < m
            invariant
                i < self.active_quests@.len(),
                q == &self.active_quests[i as int],
                m == q.prerequisites@.len(),
                qv == quests_view(self.active_quests@)[i as int],
                cv == quests_view(self.completed_quests@),
                p <= m,
                forall|j: int| 0 <= j < p ==> #[trigger] prereq_satisfied(qv, cv, j),
            decreases m - p,
        {
            let mut found = false;
            let cn = self.completed_quests.len();
            let mut k: usize = 0;
            while !found && k < cn
                invariant
                    i < self.active_quests@.len(),
                    q == &self.active_quests[i as int],
                    m == q.prerequisites@.len(),
                    p < m,
                    cn == self.completed_quests@.len(),
                    k <= cn,
                    qv == quests_view(self.active_quests@)[i as int],
                    cv == quests_view(self.completed_quests@),
                    qv.prerequisites[p as int] == q.prerequisites@[p as int]@,
                    found ==> exists|c: int|
                        0 <= c < cv.len() && (#[trigger] cv[c]).id == qv.prerequisites[p as int],
                    !found ==> forall|c: int|
                        0 <= c < k ==> (#[trigger] cv[c]).id != qv.prerequisites[p as int],
                decreases cn - k, (if found {
                    0int
                } else {
                    1int
                }),
            {
                if str_eq(self.completed_quests[k].id.as_str(), q.prerequisites[p].as_str()) {
                    proof {
                        assert((cv[k as int]).id == q.prerequisites@[p as int]@);
                    }
                    found = true;
                } else {
                    k = k + 1;
                }
            }
            if !found {
                proof {
                    assert(forall|c: int|
                        0 <= c < cv.len() ==> (#[trigger] cv[c]).id != qv.prerequisites[p as int]);
                    assert(!prereq_satisfied(qv, cv, p as int));
                }
                return false;
            }
            proof {
                assert(prereq_satisfied(qv, cv, p as int));
            }
            p = p + 1;
        }
        proof {
            assert(qv.prerequisites.len() == m);
            assert(prereqs_met(qv, cv));
        }
        true
    }
}


proof fn lemma_complete_process_front(m: QuestManagerV, s: Seq<int>, x: int)
    ensures
        complete_process(m, seq![x] + s) == complete_one(complete_process(m, s), x),
    decreases s.len(),
{
    let xs = seq![x] + s;
    assert(xs.len() == s.len() + 1);
    if s.len() == 0 {
        assert(xs.last() == x);
        assert(xs.drop_last() =~= Seq::<int>::empty());
        assert(complete_process(m, xs) == complete_process(complete_one(m, xs.last()), xs.drop_last()));
        assert(complete_process(complete_one(m, x), xs.drop_last()) == complete_one(m, x));
        assert(complete_process(m, s) == m);
    } else {
        assert(xs.last() == s.last());
        assert(xs.drop_last() =~= seq![x] + s.drop_last());
        lemma_complete_process_front(complete_one(m, s.last()), s.drop_last(), x);
        assert(complete_process(m, xs) == complete_process(complete_one(m, xs.last()), xs.drop_last()));
        assert(complete_process(m, s) == complete_process(complete_one(m, s.last()), s.drop_last()));
    }
}

impl QuestManager {
    fn check_objective(&self, objective: &QuestObjective, context: &ExecutionContext) -> (r: bool)
        requires
            context.wf(),
        ensures
            r == objective_met(objective@, context@),
    {
        QuestManager::check_objective_static(objective, context)
    }

    /// Whether the session state meets one objective.
    fn check_objective_static(objective: &QuestObjective, context: &ExecutionContext) -> (r: bool)
        requires
            context.wf(),
        ensures
            r == objective_met(objective@, context@),
    {
        match objective {
            QuestObjective::ExecuteProgram { pattern } => {
                let r = scan_contains(&context.executed_expressions, pattern.as_str());
                proof {
                    assert(objective@ == (QuestObjectiveV::ExecuteProgram { pattern: pattern@ }));
                    assert(context@.executed == context.executed_expressions.deep_view());
                    assert(r == objective_met(objective@, context@));
                }
                r
            },
            QuestObjective::DefineFunction { min_params } => {
                let r = context.functions.any_with_min_params(*min_params);
                proof {
                    assert(objective@ == (QuestObjectiveV::DefineFunction {
                        min_params: *min_params as nat,
                    }));
                    assert(context@.functions == context.functions@);
                    assert(r == objective_met(objective@, context@));
                }
                r
            },
            QuestObjective::UseVariables { count } => {
                let r = context.variables.len() >= *count;
                proof {
                    assert(r == objective_met(objective@, context@));
                }
                r
            },
            QuestObjective::ProduceOutput { expected } => {
                let r = scan_equals(&context.output, expected.as_str());
                proof {
                    assert(objective@ == (QuestObjectiveV::ProduceOutput { expected: expected@ }));
                    assert(context@.output == context.output.deep_view());
                    assert(r == objective_met(objective@, context@));
                }
                r
            },
            QuestObjective::CreateVariable { name } => match name {
                Some(var_name) => {
                    let r = context.variables.contains_key(var_name.as_str());
                    proof {
                        assert(objective@ == (QuestObjectiveV::CreateVariable {
                            name: Some(var_name@),
                        }));
                        assert(context@.variables == context.variables@);
                        assert(r == context.variables@.dom().contains(var_name@));
                        assert(objective_met(objective@, context@) == context@.variables.dom()
                            .contains(var_name@));
                        assert(r == objective_met(objective@, context@));
                    }
                    r
                },
                None => {
                    let r = !context.variables.is_empty();
                    proof {
                        assert(objective@ == (QuestObjectiveV::CreateVariable {
                            name: None::<Seq<char>>,
                        }));
                        assert(context@.variables == context.variables@);
                        assert(r == objective_met(objective@, context@));
                    }
                    r
                },
            },
            QuestObjective::CallFunction { name } => match name {
                Some(func_name) => {
                    let r = scan_contains_both(
                        &context.executed_expressions,
                        "FnCall",
                        func_name.as_str(),
                    );
                    proof {
                        assert(objective@ == (QuestObjectiveV::CallFunction {
                            name: Some(func_name@),
                        }));
                        assert(context@.executed == context.executed_expressions.deep_view());
                        assert(r == objective_met(objective@, context@));
                    }
                    r
                },
                None => {
                    let r = scan_contains(&context.executed_expressions, "FnCall");
                    proof {
                        assert(objective@ == (QuestObjectiveV::CallFunction {
                            name: None::<Seq<char>>,
                        }));
                        assert(context@.executed == context.executed_expressions.deep_view());
                        assert(r == objective_met(objective@, context@));
                    }
                    r
                },
            },
            QuestObjective::PerformArithmetic => {
                let r = scan_contains_either(&context.executed_expressions, "Binary", "arithmetic");
                proof {
                    assert(objective@ == QuestObjectiveV::PerformArithmetic);
                    assert(context@.executed == context.executed_expressions.deep_view());
                    assert(r == objective_met(objective@, context@));
                }
                r
            },
        }
    }

    /// Whether quest i of the active list would complete now.
    #[verifier::loop_isolation(false)]
    fn quest_eligible(&self, i: usize, context: &ExecutionContext) -> (r: bool)
        requires
            context.wf(),
            i < self.active_quests@.len(),
        ensures
            r == eligible(quests_view(self.active_quests@)[i as int], context@),
    {
        let q = &self.active_quests[i];
        if q.is_completed() {
            return false;
        }
        let m = q.objectives.len();
        let mut p: usize = 0;
        while p < m
            invariant
                context.wf(),
                i < self.active_quests@.len(),
                q == &self.active_quests[i as int],
                m == q.objectives@.len(),
                p <= m,
                forall|j: int|
                    0 <= j < p ==> objective_met(
                        #[trigger] objectives_view(q.objectives@)[j],
                        context@,
                    ),
            decreases m - p,
        {
            if !QuestManager::check_objective_static(&q.objectives[p], context) {
                proof {
                    let qv = quests_view(self.active_quests@)[i as int];
                    assert(qv.objectives[p as int] == objectives_view(q.objectives@)[p as int]);
                }
                return false;
            }
            p = p + 1;
        }
        proof {
            let qv = quests_view(self.active_quests@)[i as int];
            assert(forall|j: int|
                0 <= j < qv.objectives.len() ==> #[trigger] qv.objectives[j] == objectives_view(
                    q.objectives@,
                )[j]);
        }
        true
    }

    /// One completion sweep: pays out every quest whose objectives the
    /// state now meets, moves each to the completed list (highest
    /// position first), and unlocks dependents after each move.
    #[verifier::loop_isolation(false)]
    #[verifier::rlimit(80)]
    pub fn check_completion(&mut self, execution_context: &ExecutionContext) -> (r: Vec<CoinReward>)
        requires
            execution_context.wf(),
        ensures
            r@ == rewards_from(old(self)@.active, execution_context@),
            final(self)@ == complete_process(
                old(self)@,
                winner_idxs(old(self)@.active, execution_context@),
            ),
    {
        let ghost av = quests_view(self.active_quests@);
        let ghost ctxv = execution_context@;
        let mut rewards: Vec<CoinReward> = Vec::new();
        let mut completed_quest_indices: Vec<usize> = Vec::new();
        let n = self.active_quests.len();
        let mut i: usize = 0;
        proof {
            assert(av.skip(0) =~= av);
            assert(av.take(0) =~= Seq::<QuestV>::empty());
        }
        while i < n
            invariant
                execution_context.wf(),
                n == self.active_quests@.len(),
                i <= n,
                av == quests_view(self.active_quests@),
                ctxv == execution_context@,
                rewards@ + rewards_from(av.skip(i as int), ctxv) == rewards_from(av, ctxv),
                completed_quest_indices@.len() == winner_idxs(av.take(i as int), ctxv).len(),
                forall|j: int|
                    0 <= j < completed_quest_indices@.len()
                        ==> #[trigger] completed_quest_indices@[j] as int == winner_idxs(
                        av.take(i as int),
                        ctxv,
                    )[j] && 0 <= completed_quest_indices@[j] < n,
            decreases n - i,
        {
            proof {
                assert(av.skip(i as int)[0] == av[i as int]);
                assert(av.skip(i as int).drop_first() =~= av.skip(i + 1));
                assert(av.take(i + 1).drop_last() =~= av.take(i as int));
                assert(av.take(i + 1).last() == av[i as int]);
            }
            let e = self.quest_eligible(i, execution_context);
            if e {
                let ghost r0 = rewards@;
                let q = &self.active_quests[i];
                let rn = q.rewards.len();
                let mut t: usize = 0;
                while t < rn
                    invariant
                        i < self.active_quests@.len(),
                        q == &self.active_quests[i as int],
                        rn == q.rewards@.len(),
                        t <= rn,
                        rewards@ == r0 + q.rewards@.take(t as int),
                    decreases rn - t,
                {
                    proof {
                        assert(q.rewards@.take(t + 1).drop_last() =~= q.rewards@.take(t as int));
                    }
                    rewards.push(q.rewards[t]);
                    proof {
                        assert(rewards@ =~= r0 + q.rewards@.take(t + 1));
                    }
                    t = t + 1;
                }
                proof {
                    assert(q.rewards@.take(rn as int) =~= q.rewards@);
                    assert(av[i as int].rewards == q.rewards@);
                    assert(r0 + av[i as int].rewards + rewards_from(av.skip(i + 1), ctxv) =~= r0
                        + (av[i as int].rewards + rewards_from(av.skip(i + 1), ctxv)));
                }
                completed_quest_indices.push(i);
            } else {
                proof {
                    assert(rewards@ + (Seq::<CoinReward>::empty() + rewards_from(
                        av.skip(i + 1),
                        ctxv,
                    )) =~= rewards@ + rewards_from(av.skip(i + 1), ctxv));
                }
            }
            i = i + 1;
        }
        proof {
            assert(av.take(n as int) =~= av);
            assert(av.skip(n as int) =~= Seq::<QuestV>::empty());
            assert(rewards@ + Seq::<CoinReward>::empty() =~= rewards@);
        }

        let ghost widxs = winner_idxs(av, ctxv);
        let ghost m0 = old(self)@;
        let mut j: usize = completed_quest_indices.len();
        proof {
            assert(widxs.skip(j as int) =~= Seq::<int>::empty());
        }
        while j > 0
            invariant
                j <= completed_quest_indices@.len(),
                completed_quest_indices@.len() == widxs.len(),
                forall|k: int|
                    0 <= k < widxs.len() ==> #[trigger] completed_quest_indices@[k] as int
                        == widxs[k],
                self@ == complete_process(m0, widxs.skip(j as int)),
            decreases j,
        {
            j = j - 1;
            let index = completed_quest_indices[j];
            proof {
                assert(widxs.skip(j as int) =~= seq![widxs[j as int]] + widxs.skip(j + 1));
                lemma_complete_process_front(m0, widxs.skip(j + 1), widxs[j as int]);
            }
            self.complete_at(index);
        }
        proof {
            assert(widxs.skip(0) =~= widxs);
        }
        rewards
    }

    /// Moves the quest at one position to the completed list, marked
    /// completed, and runs the unlocking sweep for its id. A position
    /// past the list does nothing.
    fn complete_at(&mut self, index: usize)
        ensures
            final(self)@ == complete_one(old(self)@, index as int),
    {
        if index >= self.active_quests.len() {
            return ;
        }
        let q = self.active_quests.remove(index);
        let mut q = q;
        q.completed = true;
        let id = q.id.clone();
        let ghost a1 = quests_view(old(self).active_quests@).remove(index as int);
        proof {
            assert(quests_view(self.active_quests@) =~= a1);
            assert(q@ == (QuestV {
                completed: true,
                ..quests_view(old(self).active_quests@)[index as int]
            }));
        }
        let ghost c0 = quests_view(self.completed_quests@);
        self.completed_quests.push(q);
        proof {
            assert(quests_view(self.completed_quests@) =~= c0.push(
                quests_view(self.completed_quests@).last(),
            ));
            assert(self.completed_quests@.drop_last() =~= old(self).completed_quests@);
        }
        self.unlock_dependent_quests(id.as_str());
    }

    #[verifier::loop_isolation(false)]
    pub fn get_quest_by_id(&self, quest_id: &str) -> (r: Option<&Quest>)
        ensures
            match r {
                Some(q) => quest_by_id_s(self@, quest_id@) == Some(q@),
                None => quest_by_id_s(self@, quest_id@) is None,
            },
    {
        let n = self.active_quests.len();
        let mut i: usize = 0;
        while i < n
            invariant
                n == self.active_quests@.len(),
                i <= n,
                forall|j: int|
                    0 <= j < i ==> (#[trigger] quests_view(self.active_quests@)[j]).id
                        != quest_id@,
            decreases n - i,
        {
            if str_eq(self.active_quests[i].id.as_str(), quest_id) {
                proof {
                    assert(quests_view(self.active_quests@)[i as int].id == quest_id@);
                    lemma_first_match_prefix(
                        quests_view(self.active_quests@),
                        i as int,
                        quest_id@,
                    );
                }
                return Some(&self.active_quests[i]);
            }
            i = i + 1;
        }
        proof {
            lemma_first_match_absent(quests_view(self.active_quests@), quest_id@);
        }
        let m = self.completed_quests.len();
        let mut k: usize = 0;
        while k < m
            invariant
                m == self.completed_quests@.len(),
                k <= m,
                first_match(quests_view(self.active_quests@), quest_id@) is None,
                forall|j: int|
                    0 <= j < k ==> (#[trigger] quests_view(self.completed_quests@)[j]).id
                        != quest_id@,
            decreases m - k,
        {
            if str_eq(self.completed_quests[k].id.as_str(), quest_id) {
                proof {
                    assert(quests_view(self.completed_quests@)[k as int].id == quest_id@);
                    lemma_first_match_prefix(
                        quests_view(self.completed_quests@),
                        k as int,
                        quest_id@,
                    );
                }
                return Some(&self.completed_quests[k]);
            }
            k = k + 1;
        }
        proof {
            lemma_first_match_absent(quests_view(self.completed_quests@), quest_id@);
        }
        None
    }

    /// The per-objective standing of one quest against the state.
    #[verifier::loop_isolation(false)]
    pub fn get_quest_progress(&self, quest_id: &str, context: &ExecutionContext) -> (r: Option<
        QuestProgress,
    >)
        requires
            context.wf(),
        ensures
            match quest_by_id_s(self@, quest_id@) {
                Some(q) => r matches Some(p) && p.quest_id@ == quest_id@
                    && p.total_objectives == q.objectives.len() && p.completed_objectives@.len()
                    == q.objectives.len() && (forall|i: int|
                    0 <= i < q.objectives.len() ==> p.completed_objectives@[i] == objective_met(
                        #[trigger] q.objectives[i],
                        context@,
                    )) && p.is_complete == q.completed,
                None => r is None,
            },
    {
        let found = self.get_quest_by_id(quest_id);
        match found {
            Some(quest) => {
                let m = quest.objectives.len();
                let mut completed_objectives: Vec<bool> = Vec::new();
                let mut p: usize = 0;
                while p < m
                    invariant
                        context.wf(),
                        m == quest.objectives@.len(),
                        p <= m,
                        completed_objectives@.len() == p,
                        forall|j: int|
                            0 <= j < p ==> #[trigger] completed_objectives@[j] == objective_met(
                                objectives_view(quest.objectives@)[j],
                                context@,
                            ),
                    decreases m - p,
                {
                    let met = self.check_objective(&quest.objectives[p], context);
                    completed_objectives.push(met);
                    p = p + 1;
                }
                Some(
                    QuestProgress {
                        quest_id: quest_id.to_owned(),
                        total_objectives: m,
                        completed_objectives,
                        is_complete: quest.is_completed(),
                    },
                )
            },
            None => None,
        }
    }
}

impl Default for QuestManager {
    fn default() -> (r: Self)
        ensures
            r@.active == Seq::<QuestV>::empty(),
            r@.completed == Seq::<QuestV>::empty(),
    {
        Self::new()
    }
}

/// Where one quest stands: which objectives are met and whether the
/// quest as a whole is done.
#[derive(Debug, Clone)]
pub struct QuestProgress {
    pub quest_id: String,
    pub total_objectives: usize,
    pub completed_objectives: Vec<bool>,
    pub is_complete: bool,
}

/// Whether any line of the list contains the pattern.
#[verifier::loop_isolation(false)]
fn scan_contains(lines: &Vec<String>, pattern: &str) -> (r: bool)
    ensures
        r == exists|i: int|
            0 <= i < lines.deep_view().len() && spec_contains(
                #[trigger] lines.deep_view()[i],
                pattern@,
            ),
{
    let n = lines.len();
    let mut i: usize = 0;
    while i < n
        invariant
            n == lines@.len(),
            i <= n,
            forall|j: int| 0 <= j < i ==> !spec_contains(#[trigger] lines.deep_view()[j], pattern@),
        decreases n - i,
    {
        if str_contains(lines[i].as_str(), pattern) {
            proof {
                assert(spec_contains(lines.deep_view()[i as int], pattern@));
            }
            return true;
        }
        i = i + 1;
    }
    false
}

/// Whether any line equals the expected text.
#[verifier::loop_isolation(false)]
fn scan_equals(lines: &Vec<String>, expected: &str) -> (r: bool)
    ensures
        r == exists|i: int|
            0 <= i < lines.deep_view().len() && #[trigger] lines.deep_view()[i] == expected@,
{
    let n = lines.len();
    let mut i: usize = 0;
    while i < n
        invariant
            n == lines@.len(),
            i <= n,
            forall|j: int| 0 <= j < i ==> #[trigger] lines.deep_view()[j] != expected@,
        decreases n - i,
    {
        if str_eq(lines[i].as_str(), expected) {
            proof {
                assert(lines.deep_view()[i as int] == expected@);
            }
            return true;
        }
        i = i + 1;
    }
    false
}

/// Whether any line contains both patterns.
#[verifier::loop_isolation(false)]
fn scan_contains_both(lines: &Vec<String>, a: &str, b: &str) -> (r: bool)
    ensures
        r == exists|i: int|
            0 <= i < lines.deep_view().len() && spec_contains(#[trigger] lines.deep_view()[i], a@)
                && spec_contains(lines.deep_view()[i], b@),
{
    let n = lines.len();
    let mut i: usize = 0;
    while i < n
        invariant
            n == lines@.len(),
            i <= n,
            forall|j: int|
                0 <= j < i ==> !(spec_contains(#[trigger] lines.deep_view()[j], a@)
                    && spec_contains(lines.deep_view()[j], b@)),
        decreases n - i,
    {
        if str_contains(lines[i].as_str(), a) && str_contains(lines[i].as_str(), b) {
            proof {
                assert(spec_contains(lines.deep_view()[i as int], a@) && spec_contains(
                    lines.deep_view()[i as int],
                    b@,
                ));
            }
            return true;
        }
        i = i + 1;
    }
    false
}

/// Whether any line contains either pattern.
#[verifier::loop_isolation(false)]
fn scan_contains_either(lines: &Vec<String>, a: &str, b: &str) -> (r: bool)
    ensures
        r == exists|i: int|
            0 <= i < lines.deep_view().len() && (spec_contains(#[trigger] lines.deep_view()[i], a@)
                || spec_contains(lines.deep_view()[i], b@)),
{
    let n = lines.len();
    let mut i: usize = 0;
    while i < n
        invariant
            n == lines@.len(),
            i <= n,
            forall|j: int|
                0 <= j < i ==> !(spec_contains(#[trigger] lines.deep_view()[j], a@)
                    || spec_contains(lines.deep_view()[j], b@)),
        decreases n - i,
    {
        if str_contains(lines[i].as_str(), a) || str_contains(lines[i].as_str(), b) {
            proof {
                assert(spec_contains(lines.deep_view()[i as int], a@) || spec_contains(
                    lines.deep_view()[i as int],
                    b@,
                ));
            }
            return true;
        }
        i = i + 1;
    }
    false
}


/// The quest a starter entry denotes.
pub open spec fn quest_made(
    id: Seq<char>,
    title: Seq<char>,
    description: Seq<char>,
    objectives: Seq<QuestObjectiveV>,
    rewards: Seq<CoinReward>,
    difficulty: QuestDifficulty,
    prerequisites: Seq<Seq<char>>,
) -> QuestV {
    QuestV {
        id,
        title,
        description,
        objectives,
        rewards,
        completed: false,
        difficulty,
        prerequisites,
        unlocked: prerequisites.len() == 0,
    }
}

/// The nine starter quests, in the order they are added.
pub open spec fn starter_quests() -> Seq<QuestV> {
    seq![
        quest_made(
            "hello_world"@,
            "Hello World"@,
            "Welcome to CAng! Start by performing a simple arithmetic calculation like '2 + 3' to get familiar with the interpreter."@,
            seq![QuestObjectiveV::PerformArithmetic],
            seq![CoinReward { coin_type: crate::coin_manager::CoinType::Variable, amount: 2 }],
            QuestDifficulty::Beginner,
            Seq::empty(),
        ),
        quest_made(
            "print_hello"@,
            "Print Hello"@,
            "Use the print statement to output 'Hello World' to the console. Try: print(\"Hello World\")"@,
            seq![QuestObjectiveV::ProduceOutput { expected: "Hello World"@ }],
            seq![CoinReward { coin_type: crate::coin_manager::CoinType::Variable, amount: 1 }],
            QuestDifficulty::Beginner,
            seq!["first_function"@],
        ),
        quest_made(
            "first_variable"@,
            "First Variable"@,
            "Learn to store values by creating your first variable. Try 'let x = 5' to create a variable named 'x' with value 5."@,
            seq![QuestObjectiveV::CreateVariable { name: None }],
            seq![CoinReward { coin_type: crate::coin_manager::CoinType::Variable, amount: 3 }],
            QuestDifficulty::Beginner,
            seq!["hello_world"@],
        ),
        quest_made(
            "variable_arithmetic"@,
            "Variable Arithmetic"@,
            "Combine variables with arithmetic! Create a variable and then use it in a calculation."@,
            seq![
                QuestObjectiveV::CreateVariable { name: None },
                QuestObjectiveV::PerformArithmetic,
            ],
            seq![CoinReward { coin_type: crate::coin_manager::CoinType::Variable, amount: 2 }],
            QuestDifficulty::Beginner,
            seq!["first_variable"@],
        ),
        quest_made(
            "first_function"@,
            "First Function"@,
            "Define your first function to reuse code. Try 'fn add(a, b) { a + b }' to create a function that adds two numbers."@,
            seq![QuestObjectiveV::DefineFunction { min_params: 0 }],
            seq![CoinReward { coin_type: crate::coin_manager::CoinType::Function, amount: 2 }],
            QuestDifficulty::Intermediate,
            seq!["variable_arithmetic"@],
        ),
        quest_made(
            "function_with_params"@,
            "Parameterized Function"@,
            "Create a function that takes at least one parameter. Parameters make functions flexible and reusable."@,
            seq![QuestObjectiveV::DefineFunction { min_params: 1 }],
            seq![CoinReward { coin_type: crate::coin_manager::CoinType::Function, amount: 1 }],
            QuestDifficulty::Intermediate,
            seq!["first_function"@],
        ),
        quest_made(
            "multiple_variables"@,
            "Variable Master"@,
            "Show your mastery by creating at least 3 different variables in your program."@,
            seq![QuestObjectiveV::UseVariables { count: 3 }],
            seq![CoinReward { coin_type: crate::coin_manager::CoinType::Variable, amount: 4 }],
            QuestDifficulty::Intermediate,
            seq!["variable_arithmetic"@],
        ),
        quest_made(
            "function_caller"@,
            "Function Caller"@,
            "Define a function and then call it! This demonstrates the full function lifecycle."@,
            seq![
                QuestObjectiveV::DefineFunction { min_params: 1 },
                QuestObjectiveV::CallFunction { name: None },
            ],
            seq![
                CoinReward { coin_type: crate::coin_manager::CoinType::Function, amount: 2 },
                CoinReward { coin_type: crate::coin_manager::CoinType::Variable, amount: 2 },
            ],
            QuestDifficulty::Advanced,
            seq!["function_with_params"@],
        ),
        quest_made(
            "complex_program"@,
            "Complex Program"@,
            "Create a sophisticated program that uses multiple variables, defines a function, and performs calculations."@,
            seq![
                QuestObjectiveV::UseVariables { count: 2 },
                QuestObjectiveV::DefineFunction { min_params: 1 },
                QuestObjectiveV::PerformArithmetic,
            ],
            seq![
                CoinReward { coin_type: crate::coin_manager::CoinType::Variable, amount: 5 },
                CoinReward { coin_type: crate::coin_manager::CoinType::Function, amount: 3 },
            ],
            QuestDifficulty::Advanced,
            seq!["multiple_variables"@, "function_caller"@],
        ),
    ]
}

fn objs1(a: QuestObjective) -> (r: Vec<QuestObjective>)
    ensures
        objectives_view(r@) == seq![a@],
{
    let mut r: Vec<QuestObjective> = Vec::new();
    r.push(a);
    proof {
        assert(objectives_view(r@) =~= seq![r@[0]@]);
    }
    r
}

fn objs2(a: QuestObjective, b: QuestObjective) -> (r: Vec<QuestObjective>)
    ensures
        objectives_view(r@) == seq![a@, b@],
{
    let mut r: Vec<QuestObjective> = Vec::new();
    r.push(a);
    r.push(b);
    proof {
        assert(objectives_view(r@) =~= seq![r@[0]@, r@[1]@]);
    }
    r
}

fn objs3(a: QuestObjective, b: QuestObjective, c: QuestObjective) -> (r: Vec<QuestObjective>)
    ensures
        objectives_view(r@) == seq![a@, b@, c@],
{
    let mut r: Vec<QuestObjective> = Vec::new();
    r.push(a);
    r.push(b);
    r.push(c);
    proof {
        assert(objectives_view(r@) =~= seq![r@[0]@, r@[1]@, r@[2]@]);
    }
    r
}

fn rewards1(a: CoinReward) -> (r: Vec<CoinReward>)
    ensures
        r@ == seq![a],
{
    let mut r: Vec<CoinReward> = Vec::new();
    r.push(a);
    proof {
        assert(r@ =~= seq![a]);
    }
    r
}

fn rewards2(a: CoinReward, b: CoinReward) -> (r: Vec<CoinReward>)
    ensures
        r@ == seq![a, b],
{
    let mut r: Vec<CoinReward> = Vec::new();
    r.push(a);
    r.push(b);
    proof {
        assert(r@ =~= seq![a, b]);
    }
    r
}

fn names0() -> (r: Vec<String>)
    ensures
        r.deep_view() == Seq::<Seq<char>>::empty(),
{
    let r: Vec<String> = Vec::new();
    proof {
        assert(r.deep_view() =~= Seq::<Seq<char>>::empty());
    }
    r
}

fn names1(a: &str) -> (r: Vec<String>)
    ensures
        r.deep_view() == seq![a@],
{
    let mut r: Vec<String> = Vec::new();
    r.push(a.to_owned());
    proof {
        assert(r.deep_view() =~= seq![a@]);
    }
    r
}

fn names2(a: &str, b: &str) -> (r: Vec<String>)
    ensures
        r.deep_view() == seq![a@, b@],
{
    let mut r: Vec<String> = Vec::new();
    r.push(a.to_owned());
    r.push(b.to_owned());
    proof {
        assert(r.deep_view() =~= seq![a@, b@]);
    }
    r
}

/// The tracker after the starter quests are added, in order.
pub open spec fn starter_added(m: QuestManagerV) -> QuestManagerV {
    add_quest_s(
        add_quest_s(
            add_quest_s(
                add_quest_s(
                    add_quest_s(
                        add_quest_s(
                            add_quest_s(
                                add_quest_s(
                                    add_quest_s(m, starter_quests()[0]),
                                    starter_quests()[1],
                                ),
                                starter_quests()[2],
                            ),
                            starter_quests()[3],
                        ),
                        starter_quests()[4],
                    ),
                    starter_quests()[5],
                ),
                starter_quests()[6],
            ),
            starter_quests()[7],
        ),
        starter_quests()[8],
    )
}

impl QuestManager {
    /// Stocks the tracker with the starter quests, in order; only the
    /// first, with no prerequisites, starts unlocked.
    #[verifier::rlimit(100)]
    pub fn initialize_starter_quests(&mut self)
        ensures
            final(self)@ == starter_added(old(self)@),
    {
        let hello_world_quest = Quest::new_with_difficulty(
            "hello_world".to_owned(),
            "Hello World".to_owned(),
            "Welcome to CAng! Start by performing a simple arithmetic calculation like '2 + 3' to get familiar with the interpreter.".to_owned(),
            objs1(QuestObjective::PerformArithmetic),
            rewards1(
                CoinReward { coin_type: crate::coin_manager::CoinType::Variable, amount: 2 },
            ),
            QuestDifficulty::Beginner,
            names0(),
        );
        proof {
            assert(hello_world_quest@ =~~= starter_quests()[0]);
        }

        let print_hello_quest = Quest::new_with_difficulty(
            "print_hello".to_owned(),
            "Print Hello".to_owned(),
            "Use the print statement to output 'Hello World' to the console. Try: print(\"Hello World\")".to_owned(),
            objs1(QuestObjective::ProduceOutput { expected: "Hello World".to_owned() }),
            rewards1(
                CoinReward { coin_type: crate::coin_manager::CoinType::Variable, amount: 1 },
            ),
            QuestDifficulty::Beginner,
            names1("first_function"),
        );
        proof {
            assert(print_hello_quest@ =~~= starter_quests()[1]);
        }

        let first_variable_quest = Quest::new_with_difficulty(
            "first_variable".to_owned(),
            "First Variable".to_owned(),
            "Learn to store values by creating your first variable. Try 'let x = 5' to create a variable named 'x' with value 5.".to_owned(),
            objs1(QuestObjective::CreateVariable { name: None }),
            rewards1(
                CoinReward { coin_type: crate::coin_manager::CoinType::Variable, amount: 3 },
            ),
            QuestDifficulty::Beginner,
            names1("hello_world"),
        );
        proof {
            assert(first_variable_quest@ =~~= starter_quests()[2]);
        }

        let variable_arithmetic_quest = Quest::new_with_difficulty(
            "variable_arithmetic".to_owned(),
            "Variable Arithmetic".to_owned(),
            "Combine variables with arithmetic! Create a variable and then use it in a calculation.".to_owned(),
            objs2(
                QuestObjective::CreateVariable { name: None },
                QuestObjective::PerformArithmetic,
            ),
            rewards1(
                CoinReward { coin_type: crate::coin_manager::CoinType::Variable, amount: 2 },
            ),
            QuestDifficulty::Beginner,
            names1("first_variable"),
        );
        proof {
            assert(variable_arithmetic_quest@ =~~= starter_quests()[3]);
        }

        let first_function_quest = Quest::new_with_difficulty(
            "first_function".to_owned(),
            "First Function".to_owned(),
            "Define your first function to reuse code. Try 'fn add(a, b) { a + b }' to create a function that adds two numbers.".to_owned(),
            objs1(QuestObjective::DefineFunction { min_params: 0 }),
            rewards1(
                CoinReward { coin_type: crate::coin_manager::CoinType::Function, amount: 2 },
            ),
            QuestDifficulty::Intermediate,
            names1("variable_arithmetic"),
        );
        proof {
            assert(first_function_quest@ =~~= starter_quests()[4]);
        }

        let function_with_params_quest = Quest::new_with_difficulty(
            "function_with_params".to_owned(),
            "Parameterized Function".to_owned(),
            "Create a function that takes at least one parameter. Parameters make functions flexible and reusable.".to_owned(),
            objs1(QuestObjective::DefineFunction { min_params: 1 }),
            rewards1(
                CoinReward { coin_type: crate::coin_manager::CoinType::Function, amount: 1 },
            ),
            QuestDifficulty::Intermediate,
            names1("first_function"),
        );
        proof {
            assert(function_with_params_quest@ =~~= starter_quests()[5]);
        }

        let multiple_variables_quest = Quest::new_with_difficulty(
            "multiple_variables".to_owned(),
            "Variable Master".to_owned(),
            "Show your mastery by creating at least 3 different variables in your program.".to_owned(),
            objs1(QuestObjective::UseVariables { count: 3 }),
            rewards1(
                CoinReward { coin_type: crate::coin_manager::CoinType::Variable, amount: 4 },
            ),
            QuestDifficulty::Intermediate,
            names1("variable_arithmetic"),
        );
        proof {
            assert(multiple_variables_quest@ =~~= starter_quests()[6]);
        }

        let function_caller_quest = Quest::new_with_difficulty(
            "function_caller".to_owned(),
            "Function Caller".to_owned(),
            "Define a function and then call it! This demonstrates the full function lifecycle.".to_owned(),
            objs2(
                QuestObjective::DefineFunction { min_params: 1 },
                QuestObjective::CallFunction { name: None },
            ),
            rewards2(
                CoinReward { coin_type: crate::coin_manager::CoinType::Function, amount: 2 },
                CoinReward { coin_type: crate::coin_manager::CoinType::Variable, amount: 2 },
            ),
            QuestDifficulty::Advanced,
            names1("function_with_params"),
        );
        proof {
            assert(function_caller_quest@ =~~= starter_quests()[7]);
        }

        let complex_program_quest = Quest::new_with_difficulty(
            "complex_program".to_owned(),
            "Complex Program".to_owned(),
            "Create a sophisticated program that uses multiple variables, defines a function, and performs calculations.".to_owned(),
            objs3(
                QuestObjective::UseVariables { count: 2 },
                QuestObjective::DefineFunction { min_params: 1 },
                QuestObjective::PerformArithmetic,
            ),
            rewards2(
                CoinReward { coin_type: crate::coin_manager::CoinType::Variable, amount: 5 },
                CoinReward { coin_type: crate::coin_manager::CoinType::Function, amount: 3 },
            ),
            QuestDifficulty::Advanced,
            names2("multiple_variables", "function_caller"),
        );
        proof {
            assert(complex_program_quest@ =~~= starter_quests()[8]);
        }

        self.add_quest(hello_world_quest);
        self.add_quest(print_hello_quest);
        self.add_quest(first_variable_quest);
        self.add_quest(variable_arithmetic_quest);
        self.add_quest(first_function_quest);
        self.add_quest(function_with_params_quest);
        self.add_quest(multiple_variables_quest);
        self.add_quest(function_caller_quest);
        self.add_quest(complex_program_quest);
    }
}

} // verus!
