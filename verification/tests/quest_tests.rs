use cang::quest_system::QuestDifficulty;
use cang::{CoinReward, CoinType, ExecutionContext, Quest, QuestManager, QuestObjective};

#[test]
fn test_quest_creation() {
    let quest = Quest::new(
        "test_quest".to_string(),
        "Test Quest".to_string(),
        "A test quest".to_string(),
        vec![QuestObjective::PerformArithmetic],
        vec![CoinReward {
            coin_type: CoinType::Variable,
            amount: 1,
        }],
    );

    assert_eq!(quest.id, "test_quest");
    assert_eq!(quest.title, "Test Quest");
    assert!(!quest.completed);
    assert_eq!(quest.objectives.len(), 1);
    assert_eq!(quest.rewards.len(), 1);
    assert_eq!(quest.difficulty, QuestDifficulty::Beginner);
    assert!(quest.unlocked);
    assert!(quest.prerequisites.is_empty());
}

#[test]
fn test_quest_creation_with_difficulty() {
    let quest = Quest::new_with_difficulty(
        "advanced_quest".to_string(),
        "Advanced Quest".to_string(),
        "An advanced quest".to_string(),
        vec![QuestObjective::PerformArithmetic],
        vec![CoinReward {
            coin_type: CoinType::Variable,
            amount: 5,
        }],
        QuestDifficulty::Advanced,
        vec!["prerequisite_quest".to_string()],
    );

    assert_eq!(quest.difficulty, QuestDifficulty::Advanced);
    assert!(!quest.unlocked);
    assert_eq!(quest.prerequisites.len(), 1);
    assert_eq!(quest.get_difficulty_description(), "[Advanced] Advanced Quest");
}

#[test]
fn test_quest_manager_basic_operations() {
    let mut quest_manager = QuestManager::new();

    let quest = Quest::new(
        "test_quest".to_string(),
        "Test Quest".to_string(),
        "A test quest".to_string(),
        vec![QuestObjective::PerformArithmetic],
        vec![CoinReward {
            coin_type: CoinType::Variable,
            amount: 1,
        }],
    );

    quest_manager.add_quest(quest);

    assert_eq!(quest_manager.get_active_quests().len(), 1);
    assert_eq!(quest_manager.get_completed_quests().len(), 0);
    assert!(quest_manager.has_quest("test_quest"));
    assert!(!quest_manager.has_quest("nonexistent_quest"));
}

#[test]
fn test_execution_context() {
    let mut context = ExecutionContext::new();

    context.add_variable("x".to_string(), 42);
    context.add_function(
        "test_func".to_string(),
        vec!["param1".to_string()],
        "body".to_string(),
    );
    context.add_output("Hello World".to_string());
    context.record_expression("Binary".to_string());

    assert_eq!(context.variables.len(), 1);
    assert_eq!(context.functions.len(), 1);
    assert_eq!(context.output.len(), 1);
    assert_eq!(context.executed_expressions.len(), 1);
    assert_eq!(context.variables.get("x"), Some(&42));
}

#[test]
fn test_quest_completion_detection() {
    let mut quest_manager = QuestManager::new();
    let mut context = ExecutionContext::new();

    let quest = Quest::new(
        "arithmetic_quest".to_string(),
        "Arithmetic Quest".to_string(),
        "Perform arithmetic operations".to_string(),
        vec![QuestObjective::PerformArithmetic],
        vec![CoinReward {
            coin_type: CoinType::Variable,
            amount: 2,
        }],
    );

    quest_manager.add_quest(quest);

    let rewards = quest_manager.check_completion(&context);
    assert!(rewards.is_empty());
    assert_eq!(quest_manager.get_active_quests().len(), 1);

    context.record_expression("Binary".to_string());

    let rewards = quest_manager.check_completion(&context);
    assert_eq!(rewards.len(), 1);
    assert_eq!(rewards[0].coin_type, CoinType::Variable);
    assert_eq!(rewards[0].amount, 2);
    assert_eq!(quest_manager.get_active_quests().len(), 0);
    assert_eq!(quest_manager.get_completed_quests().len(), 1);
}

#[test]
fn test_starter_quests_initialization() {
    let mut quest_manager = QuestManager::new();
    quest_manager.initialize_starter_quests();

    assert_eq!(quest_manager.get_active_quests().len(), 9);

    let quest_ids: Vec<&String> = quest_manager
        .get_active_quests()
        .iter()
        .map(|q| &q.id)
        .collect();
    assert!(quest_ids.contains(&&"hello_world".to_string()));
    assert!(quest_ids.contains(&&"print_hello".to_string()));
    assert!(quest_ids.contains(&&"first_variable".to_string()));
    assert!(quest_ids.contains(&&"first_function".to_string()));
    assert!(quest_ids.contains(&&"variable_arithmetic".to_string()));
    assert!(quest_ids.contains(&&"function_with_params".to_string()));
    assert!(quest_ids.contains(&&"multiple_variables".to_string()));
    assert!(quest_ids.contains(&&"function_caller".to_string()));
    assert!(quest_ids.contains(&&"complex_program".to_string()));

    let available_quests = quest_manager.get_available_quests();
    assert_eq!(available_quests.len(), 1);
    assert_eq!(available_quests[0].id, "hello_world");

    let hello_world = quest_manager.get_quest_by_id("hello_world").unwrap();
    assert_eq!(hello_world.difficulty, QuestDifficulty::Beginner);

    let first_function = quest_manager.get_quest_by_id("first_function").unwrap();
    assert_eq!(first_function.difficulty, QuestDifficulty::Intermediate);

    let complex_program = quest_manager.get_quest_by_id("complex_program").unwrap();
    assert_eq!(complex_program.difficulty, QuestDifficulty::Advanced);
}

#[test]
fn test_quest_progress_tracking() {
    let mut quest_manager = QuestManager::new();
    let context = ExecutionContext::new();

    let quest = Quest::new(
        "multi_objective_quest".to_string(),
        "Multi Objective Quest".to_string(),
        "A quest with multiple objectives".to_string(),
        vec![
            QuestObjective::PerformArithmetic,
            QuestObjective::CreateVariable { name: None },
        ],
        vec![CoinReward {
            coin_type: CoinType::Variable,
            amount: 3,
        }],
    );

    quest_manager.add_quest(quest);

    let progress = quest_manager
        .get_quest_progress("multi_objective_quest", &context)
        .unwrap();
    assert_eq!(progress.total_objectives, 2);
    let completed_count = progress
        .completed_objectives
        .iter()
        .filter(|&&completed| completed)
        .count();
    let percentage = (completed_count as f32 / progress.total_objectives as f32) * 100.0;
    assert_eq!(percentage, 0.0);
    assert!(!progress.is_complete);
}

#[test]
fn test_integrated_quest_completion_flow() {
    let mut quest_manager = QuestManager::new();
    let mut context = ExecutionContext::new();

    let quest = Quest::new(
        "variable_quest".to_string(),
        "Variable Quest".to_string(),
        "Create a variable".to_string(),
        vec![QuestObjective::CreateVariable { name: None }],
        vec![CoinReward {
            coin_type: CoinType::Variable,
            amount: 2,
        }],
    );

    quest_manager.add_quest(quest);

    assert_eq!(quest_manager.get_active_quests().len(), 1);
    assert_eq!(quest_manager.get_completed_quests().len(), 0);

    context.add_variable("test_var".to_string(), 42);
    context.record_expression("Let(test_var)".to_string());

    let rewards = quest_manager.check_completion(&context);
    assert_eq!(rewards.len(), 1);
    assert_eq!(rewards[0].coin_type, CoinType::Variable);
    assert_eq!(rewards[0].amount, 2);

    assert_eq!(quest_manager.get_active_quests().len(), 0);
    assert_eq!(quest_manager.get_completed_quests().len(), 1);
}

#[test]
fn test_function_definition_quest_completion() {
    let mut quest_manager = QuestManager::new();
    let mut context = ExecutionContext::new();

    let quest = Quest::new(
        "function_quest".to_string(),
        "Function Quest".to_string(),
        "Define a function".to_string(),
        vec![QuestObjective::DefineFunction { min_params: 1 }],
        vec![CoinReward {
            coin_type: CoinType::Function,
            amount: 1,
        }],
    );

    quest_manager.add_quest(quest);

    context.add_function(
        "test_func".to_string(),
        vec!["a".to_string(), "b".to_string()],
        "a + b".to_string(),
    );
    context.record_expression("FnDef(test_func, 2 params)".to_string());

    let rewards = quest_manager.check_completion(&context);
    assert_eq!(rewards.len(), 1);
    assert_eq!(rewards[0].coin_type, CoinType::Function);
    assert_eq!(rewards[0].amount, 1);

    assert_eq!(quest_manager.get_active_quests().len(), 0);
    assert_eq!(quest_manager.get_completed_quests().len(), 1);
}

#[test]
fn test_hello_world_quest_completion() {
    let mut quest_manager = QuestManager::new();
    let mut context = ExecutionContext::new();

    let quest = Quest::new(
        "hello_world".to_string(),
        "Hello World".to_string(),
        "Perform arithmetic".to_string(),
        vec![QuestObjective::PerformArithmetic],
        vec![CoinReward {
            coin_type: CoinType::Variable,
            amount: 2,
        }],
    );

    quest_manager.add_quest(quest);

    context.record_expression("Binary(2 + 3)".to_string());

    let rewards = quest_manager.check_completion(&context);
    assert_eq!(rewards.len(), 1);
    assert_eq!(rewards[0].coin_type, CoinType::Variable);
    assert_eq!(rewards[0].amount, 2);

    assert_eq!(quest_manager.get_active_quests().len(), 0);
    assert_eq!(quest_manager.get_completed_quests().len(), 1);
}

#[test]
fn test_variable_creation_quest_completion() {
    let mut quest_manager = QuestManager::new();
    let mut context = ExecutionContext::new();

    let quest = Quest::new(
        "variable_quest".to_string(),
        "Variable Quest".to_string(),
        "Create a variable".to_string(),
        vec![QuestObjective::CreateVariable { name: None }],
        vec![CoinReward {
            coin_type: CoinType::Variable,
            amount: 3,
        }],
    );

    quest_manager.add_quest(quest);

    context.add_variable("x".to_string(), 42);
    context.record_expression("Let(x = 42)".to_string());

    let rewards = quest_manager.check_completion(&context);
    assert_eq!(rewards.len(), 1);
    assert_eq!(rewards[0].coin_type, CoinType::Variable);
    assert_eq!(rewards[0].amount, 3);

    assert_eq!(quest_manager.get_active_quests().len(), 0);
    assert_eq!(quest_manager.get_completed_quests().len(), 1);
}

#[test]
fn test_multiple_variables_quest_completion() {
    let mut quest_manager = QuestManager::new();
    let mut context = ExecutionContext::new();

    let quest = Quest::new(
        "multiple_vars_quest".to_string(),
        "Multiple Variables Quest".to_string(),
        "Create multiple variables".to_string(),
        vec![QuestObjective::UseVariables { count: 3 }],
        vec![CoinReward {
            coin_type: CoinType::Variable,
            amount: 4,
        }],
    );

    quest_manager.add_quest(quest);

    context.add_variable("x".to_string(), 1);
    context.add_variable("y".to_string(), 2);

    let rewards = quest_manager.check_completion(&context);
    assert!(rewards.is_empty());
    assert_eq!(quest_manager.get_active_quests().len(), 1);

    context.add_variable("z".to_string(), 3);

    let rewards = quest_manager.check_completion(&context);
    assert_eq!(rewards.len(), 1);
    assert_eq!(rewards[0].amount, 4);
    assert_eq!(quest_manager.get_active_quests().len(), 0);
    assert_eq!(quest_manager.get_completed_quests().len(), 1);
}

#[test]
fn test_complex_multi_objective_quest_completion() {
    let mut quest_manager = QuestManager::new();
    let mut context = ExecutionContext::new();

    let quest = Quest::new(
        "complex_quest".to_string(),
        "Complex Quest".to_string(),
        "Complete multiple objectives".to_string(),
        vec![
            QuestObjective::UseVariables { count: 2 },
            QuestObjective::DefineFunction { min_params: 1 },
            QuestObjective::PerformArithmetic,
        ],
        vec![
            CoinReward {
                coin_type: CoinType::Variable,
                amount: 5,
            },
            CoinReward {
                coin_type: CoinType::Function,
                amount: 3,
            },
        ],
    );

    quest_manager.add_quest(quest);

    context.add_variable("x".to_string(), 10);
    context.add_variable("y".to_string(), 20);

    let rewards = quest_manager.check_completion(&context);
    assert!(rewards.is_empty());

    context.add_function(
        "add".to_string(),
        vec!["a".to_string(), "b".to_string()],
        "a + b".to_string(),
    );

    let rewards = quest_manager.check_completion(&context);
    assert!(rewards.is_empty());

    context.record_expression("Binary(x + y)".to_string());

    let rewards = quest_manager.check_completion(&context);
    assert_eq!(rewards.len(), 2);
    assert_eq!(quest_manager.get_active_quests().len(), 0);
    assert_eq!(quest_manager.get_completed_quests().len(), 1);
}

#[test]
fn test_quest_progression_and_unlocking() {
    let mut quest_manager = QuestManager::new();
    quest_manager.initialize_starter_quests();

    let available = quest_manager.get_available_quests();
    assert_eq!(available.len(), 1);
    assert_eq!(available[0].id, "hello_world");

    let mut context = ExecutionContext::new();
    context.record_expression("Binary(2 + 3)".to_string());

    let rewards = quest_manager.check_completion(&context);
    assert!(!rewards.is_empty());

    let available = quest_manager.get_available_quests();
    assert_eq!(available.len(), 1);
    assert_eq!(available[0].id, "first_variable");

    let mut context2 = ExecutionContext::new();
    context2.add_variable("x".to_string(), 5);
    let rewards = quest_manager.check_completion(&context2);
    assert!(!rewards.is_empty());

    let available = quest_manager.get_available_quests();
    assert_eq!(available.len(), 1);
    assert_eq!(available[0].id, "variable_arithmetic");

    let mut context3 = ExecutionContext::new();
    context3.add_variable("y".to_string(), 10);
    context3.record_expression("Binary(y + 5)".to_string());
    let rewards = quest_manager.check_completion(&context3);
    assert!(!rewards.is_empty());

    let available = quest_manager.get_available_quests();
    assert_eq!(available.len(), 2);
    let quest_ids: Vec<&str> = available.iter().map(|q| q.id.as_str()).collect();
    assert!(quest_ids.contains(&"first_function"));
    assert!(quest_ids.contains(&"multiple_variables"));
}

#[test]
fn test_quest_difficulty_descriptions() {
    assert_eq!(QuestDifficulty::Beginner.description(), "Beginner");
    assert_eq!(QuestDifficulty::Intermediate.description(), "Intermediate");
    assert_eq!(QuestDifficulty::Advanced.description(), "Advanced");

    let quest = Quest::new_with_difficulty(
        "test".to_string(),
        "Test Quest".to_string(),
        "Description".to_string(),
        vec![],
        vec![],
        QuestDifficulty::Advanced,
        vec![],
    );

    assert_eq!(quest.get_difficulty_description(), "[Advanced] Test Quest");
}

#[test]
fn test_function_call_quest_completion() {
    let mut quest_manager = QuestManager::new();
    let mut context = ExecutionContext::new();

    let quest = Quest::new(
        "function_call_quest".to_string(),
        "Function Call Quest".to_string(),
        "Call a function".to_string(),
        vec![QuestObjective::CallFunction { name: None }],
        vec![CoinReward {
            coin_type: CoinType::Function,
            amount: 1,
        }],
    );

    quest_manager.add_quest(quest);

    context.record_expression("FnCall(test_func)".to_string());

    let rewards = quest_manager.check_completion(&context);
    assert_eq!(rewards.len(), 1);
    assert_eq!(rewards[0].coin_type, CoinType::Function);
    assert_eq!(rewards[0].amount, 1);

    assert_eq!(quest_manager.get_active_quests().len(), 0);
    assert_eq!(quest_manager.get_completed_quests().len(), 1);
}
