use novigrad::device::{Device, TensorInfo};
use novigrad::error::Error;
use novigrad::instruction::{Category, Instruction, OpCode};
use novigrad::machine::{DeviceBackend, NeuralMachine, StreamExecutor};
use novigrad::models::SimpleModel;
use novigrad::operators::CrossEntropyLoss;
use novigrad::optimizers::GradientDescent;
use novigrad::scheduler::{execute_streams as run_streams, simulate_execution_and_collect_instructions};
use novigrad::scheduler::simulate_execution_and_collect_transactions;
use novigrad::streams::{
    execute_streams, get_instruction_instruction_dependencies, make_simple_instructions, make_streams,
    reset_streams, verify_machine_inputs, StreamState,
};
use novigrad::transaction::{
    get_all_instruction_transactions, get_instruction_transactions, get_operand_transaction_pairs, Access, Transaction,
};

struct NullBackend {}

impl DeviceBackend for NullBackend {
    fn allocate(&mut self, _tensors: &Vec<TensorInfo>) -> Result<(), Error> {
        Ok(())
    }
    fn copy(&mut self, _source: usize, _destination: usize) -> Result<(), Error> {
        Ok(())
    }
    fn execute(&mut self, _instruction: &Instruction) -> Result<(), Error> {
        Ok(())
    }
}

fn get_model_instructions() -> Vec<Instruction> {
    let mut device = Device::new();
    let model = SimpleModel::new(&mut device);
    let loss = CrossEntropyLoss::new();
    let optimizer = GradientDescent::new(1, 2);
    let machine = NeuralMachine::try_new(&mut device, &model, &loss, &optimizer, NullBackend {}).unwrap();
    let mut all = vec![];
    for category in [Category::Inference, Category::Loss, Category::Gradient, Category::Optimization] {
        all.extend(machine.instructions(&category));
    }
    all
}

fn test_that_accesses_are_not_reordered(access: Access, prior_access: Access) {
    let instructions = get_model_instructions();
    let simple_instructions = make_simple_instructions(&instructions);
    let expected_transactions = get_all_instruction_transactions(&simple_instructions);
    let mut expected_pairs = get_operand_transaction_pairs(access, prior_access, &expected_transactions);
    expected_pairs.sort();
    let mut streams = make_streams(&simple_instructions);
    let execution_units_len = 32;
    let actual_transactions = simulate_execution_and_collect_transactions(
        &mut streams,
        &instructions,
        &simple_instructions,
        execution_units_len,
    );
    let mut actual_pairs = get_operand_transaction_pairs(access, prior_access, &actual_transactions);
    actual_pairs.sort();
    assert_eq!(expected_pairs, actual_pairs);
}

#[test]
fn reads_and_writes_of_same_operand_are_not_reordered() {
    test_that_accesses_are_not_reordered(Access::Read, Access::Write);
}

#[test]
fn writes_and_writes_of_same_operand_are_not_reordered() {
    test_that_accesses_are_not_reordered(Access::Write, Access::Write);
}

#[test]
fn writes_and_reads_of_same_operand_are_not_reordered() {
    test_that_accesses_are_not_reordered(Access::Write, Access::Read);
}

#[test]
fn all_instructions_are_executed_with_out_of_order_execution() {
    let instructions = get_model_instructions();
    let simple_instructions = make_simple_instructions(&instructions);
    let mut streams = make_streams(&simple_instructions);
    let execution_units_len = 32;
    let executed_instructions =
        simulate_execution_and_collect_instructions(&mut streams, &instructions, execution_units_len);
    assert_eq!(instructions.len(), executed_instructions.len());
    let sequential_instructions = (0..instructions.len()).collect::<Vec<_>>();
    assert_ne!(sequential_instructions, executed_instructions);
    let mut sorted_executed_instructions = executed_instructions;
    sorted_executed_instructions.sort();
    assert_eq!(sequential_instructions, sorted_executed_instructions);
}

#[test]
fn all_instructions_are_executed_in_each_scheduler_execution() {
    let instructions = get_model_instructions();
    let simple_instructions = make_simple_instructions(&instructions);
    let mut streams = make_streams(&simple_instructions);
    let execution_units_len = 32;
    let sequential_instructions = (0..instructions.len()).collect::<Vec<_>>();
    let n = 1;
    for _ in 0..n {
        let executed_instructions =
            simulate_execution_and_collect_instructions(&mut streams, &instructions, execution_units_len);
        assert_eq!(instructions.len(), executed_instructions.len());
        assert_ne!(sequential_instructions, executed_instructions);
        let mut sorted_executed_instructions = executed_instructions;
        sorted_executed_instructions.sort();
        assert_eq!(sequential_instructions, sorted_executed_instructions);
    }
    for s in streams.iter() {
        assert_eq!(s.state, StreamState::Unreached);
    }
}

fn chain_program() -> Vec<Instruction> {
    let x = 0;
    let y = 1;
    vec![
        Instruction::new(OpCode::ScalarMul, &[], &[x], Category::Inference),
        Instruction::new(OpCode::ScalarAdd, &[x], &[x], Category::Inference),
        Instruction::new(OpCode::Add, &[x], &[y], Category::Inference),
    ]
}

#[test]
fn chain_of_three_instructions_planned() {
    let instructions = chain_program();
    let simple = make_simple_instructions(&instructions);
    let streams = make_streams(&simple);
    let members: Vec<Vec<usize>> = streams.iter().map(|s| s.instructions.clone()).collect();
    assert_eq!(members, vec![vec![0, 1, 2]]);
}

#[test]
fn chain_with_two_units_produces_one() {
    // x <- 0; x <- x + 1; y <- x, run with two execution units.
    let instructions = chain_program();
    let simple = make_simple_instructions(&instructions);
    let mut streams = make_streams(&simple);
    let executed = simulate_execution_and_collect_instructions(&mut streams, &instructions, 2);
    let mut x = 7;
    let mut y = 7;
    for i in executed {
        match i {
            0 => x = 0,
            1 => x = x + 1,
            _ => y = x,
        }
    }
    assert_eq!(y, 1);
    assert_eq!(x, 1);
}

#[test]
fn dependencies_cover_read_write_and_write_read() {
    // 0: a <- ; 1: b <- a ; 2: c <- a ; 3: a <- b
    let simple = vec![
        (vec![], vec![10]),
        (vec![10], vec![11]),
        (vec![10], vec![12]),
        (vec![11], vec![10]),
    ];
    let dependencies = get_instruction_instruction_dependencies(&simple);
    assert_eq!(dependencies, vec![vec![], vec![0], vec![0], vec![0, 1, 2]]);
}

#[test]
fn independent_instructions_open_their_own_streams() {
    let simple = vec![(vec![], vec![1]), (vec![], vec![2]), (vec![1], vec![3]), (vec![1, 2], vec![4])];
    let streams = make_streams(&simple);
    let members: Vec<Vec<usize>> = streams.iter().map(|s| s.instructions.clone()).collect();
    assert_eq!(members, vec![vec![0, 2], vec![1], vec![3]]);
    let dependencies: Vec<Vec<usize>> = streams.iter().map(|s| s.dependencies.clone()).collect();
    assert_eq!(dependencies, vec![vec![], vec![], vec![0, 1]]);
    for (k, s) in streams.iter().enumerate() {
        assert_eq!(s.id, k);
        assert_eq!(s.state, StreamState::Unreached);
    }
}

#[test]
fn execution_joins_dependencies_first() {
    let simple = vec![(vec![], vec![1]), (vec![], vec![2]), (vec![1], vec![3]), (vec![1, 2], vec![4])];
    let mut streams = make_streams(&simple);
    let order = execute_streams(&mut streams, 1);
    assert_eq!(order, vec![0, 1, 2]);
    for s in streams.iter() {
        assert_eq!(s.state, StreamState::Joined);
    }
    reset_streams(&mut streams);
    for s in streams.iter() {
        assert_eq!(s.state, StreamState::Unreached);
    }
}

#[test]
fn machine_inputs_that_are_written_are_found() {
    let simple = vec![(vec![1], vec![2]), (vec![2], vec![3])];
    assert!(verify_machine_inputs(&[1], &simple));
    assert!(!verify_machine_inputs(&[3], &simple));
    assert!(verify_machine_inputs(&[], &simple));
}

#[test]
fn transactions_read_inputs_then_write_outputs() {
    let t = get_instruction_transactions(4, &[1, 2], &[3]);
    assert_eq!(
        t,
        vec![
            Transaction { instruction: 4, operand: 1, access: Access::Read },
            Transaction { instruction: 4, operand: 2, access: Access::Read },
            Transaction { instruction: 4, operand: 3, access: Access::Write },
        ]
    );
    let pairs = get_operand_transaction_pairs(Access::Read, Access::Write, &[
        Transaction { instruction: 0, operand: 5, access: Access::Write },
        Transaction { instruction: 1, operand: 5, access: Access::Read },
        Transaction { instruction: 2, operand: 6, access: Access::Read },
    ]);
    assert_eq!(pairs, vec![(5, 0, 1)]);
}

#[test]
fn stream_state_names() {
    assert_eq!(StreamState::Unreached.name(), "Unreached");
    assert_eq!(StreamState::Spawned.name(), "Spawned");
    assert_eq!(StreamState::Joined.name(), "Joined");
}

struct ChainBackend {
    x: i64,
    y: i64,
}

impl DeviceBackend for ChainBackend {
    fn allocate(&mut self, _tensors: &Vec<TensorInfo>) -> Result<(), Error> {
        Ok(())
    }
    fn copy(&mut self, _source: usize, _destination: usize) -> Result<(), Error> {
        Ok(())
    }
    fn execute(&mut self, instruction: &Instruction) -> Result<(), Error> {
        match instruction.operator() {
            OpCode::ScalarMul => self.x = 0,
            OpCode::ScalarAdd => self.x += 1,
            _ => self.y = self.x,
        }
        Ok(())
    }
}

#[test]
fn chain_on_a_backend_with_two_units_gives_one() {
    let instructions = chain_program();
    let simple = make_simple_instructions(&instructions);
    let mut streams = make_streams(&simple);
    let mut executor = StreamExecutor::new(ChainBackend { x: 7, y: 7 });
    run_streams(&mut streams, &instructions, 2, &mut executor).unwrap();
    assert_eq!(executor.backend.y, 1);
    assert_eq!(executor.backend.x, 1);
}
