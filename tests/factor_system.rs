use std::cell::Cell;
use std::rc::Rc;

use iron::formula::{Formula, FormulaError, FormulaFn, FormulaName};
use iron::goods::GoodType;
use iron::keys::{FactorType, GameId, Key};
use iron::system::FormulaSystem;

type Func = Box<dyn Fn(Vec<f32>) -> f32>;
type System = FormulaSystem<f32, Func>;

fn boxed(f: impl Fn(Vec<f32>) -> f32 + 'static) -> Func {
    Box::new(f)
}

fn formula(inputs: Vec<Key>, arity: usize, f: Func, subject: Key) -> Formula<Func> {
    Formula::new(inputs, FormulaFn::new(arity, f), subject)
}

fn pop_size() -> Key {
    (GameId::Pop(1), FactorType::PopSize)
}

fn capacity() -> Key {
    (GameId::Settlement(1), FactorType::SettlementCarryingCapacity)
}

fn pressure() -> Key {
    (GameId::Pop(1), FactorType::PopPressure)
}

/// A formula `subject = a * 2`, counting its calls.
fn doubling(a: Key, subject: Key, calls: &Rc<Cell<usize>>) -> Formula<Func> {
    let c = calls.clone();
    formula(
        vec![a],
        1,
        boxed(move |v: Vec<f32>| {
            c.set(c.get() + 1);
            v[0] * 2.0
        }),
        subject,
    )
}

#[test]
fn pressure_scenario() {
    let mut s: System = FormulaSystem::new(0.0);
    s.insert_factor(&pop_size(), 100.0);
    s.insert_factor(&(GameId::Pop(1), FactorType::PopDemand(GoodType::Wheat)), 0.0);
    s.insert_factor(&capacity(), 50.0);
    let id = s
        .add_formula(formula(
            vec![pop_size(), capacity()],
            2,
            boxed(|v: Vec<f32>| v[0] / v[1]),
            pressure(),
        ))
        .unwrap();
    assert_eq!(id, FormulaName(0));
    assert_eq!(s.get_factor(&pressure()), 2.0);
    s.set_factor(&capacity(), 100.0);
    assert_eq!(s.get_factor(&pressure()), 1.0);
    assert_eq!(s.get_factor(&(GameId::Pop(1), FactorType::PopDemand(GoodType::Wheat))), 0.0);
}

#[test]
fn read_twice_gives_same_value() {
    let calls = Rc::new(Cell::new(0));
    let mut s: System = FormulaSystem::new(0.0);
    s.insert_factor(&pop_size(), 21.0);
    s.add_formula(doubling(pop_size(), pressure(), &calls)).unwrap();
    let first = s.get_factor(&pressure());
    let second = s.get_factor(&pressure());
    assert_eq!(first, 42.0);
    assert_eq!(first, second);
}

#[test]
fn clean_memo_is_not_recomputed() {
    let calls = Rc::new(Cell::new(0));
    let mut s: System = FormulaSystem::new(0.0);
    s.insert_factor(&pop_size(), 3.0);
    s.add_formula(doubling(pop_size(), pressure(), &calls)).unwrap();
    assert_eq!(calls.get(), 0);
    assert_eq!(s.get_factor(&pressure()), 6.0);
    assert_eq!(calls.get(), 1);
    assert_eq!(s.get_factor(&pressure()), 6.0);
    assert_eq!(s.get_factor(&pressure()), 6.0);
    assert_eq!(calls.get(), 1);
}

#[test]
fn change_reaches_the_end_of_a_chain() {
    let calls = Rc::new(Cell::new(0));
    let a = (GameId::Settlement(2), FactorType::SettlementSize);
    let b = (GameId::Settlement(2), FactorType::SettlementCarryingCapacity);
    let c = (GameId::Settlement(2), FactorType::SettlementPressure);
    let mut s: System = FormulaSystem::new(0.0);
    s.insert_factor(&a, 1.0);
    s.add_formula(doubling(a, b, &calls)).unwrap();
    s.add_formula(formula(vec![b], 1, boxed(|v: Vec<f32>| v[0] + 1.0), c)).unwrap();
    assert_eq!(s.get_factor(&c), 3.0);
    s.set_factor(&a, 10.0);
    assert_eq!(s.get_factor(&c), 21.0);
    s.add_factor(&a, 5.0);
    assert_eq!(s.get_factor(&b), 30.0);
    assert_eq!(s.get_factor(&c), 31.0);
}

#[test]
fn chain_registered_from_the_end() {
    let a = (GameId::Province(4), FactorType::SettlementSize);
    let b = (GameId::Province(4), FactorType::SettlementCarryingCapacity);
    let c = (GameId::Province(4), FactorType::SettlementPressure);
    let mut s: System = FormulaSystem::new(0.0);
    s.insert_factor(&a, 2.0);
    s.add_formula(formula(vec![b], 1, boxed(|v: Vec<f32>| v[0] * 10.0), c)).unwrap();
    assert_eq!(s.get_factor(&c), 0.0);
    s.add_formula(formula(vec![a], 1, boxed(|v: Vec<f32>| v[0] + 1.0), b)).unwrap();
    assert_eq!(s.get_factor(&c), 30.0);
    s.set_factor(&a, 4.0);
    assert_eq!(s.get_factor(&c), 50.0);
}

#[test]
fn terminal_formula_is_recomputed_only_when_read() {
    let calls = Rc::new(Cell::new(0));
    let mut s: System = FormulaSystem::new(0.0);
    s.insert_factor(&pop_size(), 1.0);
    s.add_formula(doubling(pop_size(), pressure(), &calls)).unwrap();
    assert_eq!(s.get_factor(&pressure()), 2.0);
    assert_eq!(calls.get(), 1);
    s.set_factor(&pop_size(), 7.0);
    s.set_factor(&pop_size(), 8.0);
    assert_eq!(calls.get(), 1);
    assert_eq!(s.get_factor(&pressure()), 16.0);
    assert_eq!(calls.get(), 2);
}

#[test]
fn unknown_key_reads_zero() {
    let mut s: System = FormulaSystem::new(0.0);
    assert_eq!(s.get_factor(&(GameId::Religion(9), FactorType::PopHarvest)), 0.0);
    s.set_factor(&(GameId::Religion(9), FactorType::PopHarvest), 5.0);
    s.add_factor(&(GameId::Religion(9), FactorType::PopHarvest), 5.0);
    assert_eq!(s.get_factor(&(GameId::Religion(9), FactorType::PopHarvest)), 0.0);
}

#[test]
fn writes_to_derived_cell_change_nothing() {
    let calls = Rc::new(Cell::new(0));
    let mut s: System = FormulaSystem::new(0.0);
    s.insert_factor(&pop_size(), 4.0);
    s.add_formula(doubling(pop_size(), pressure(), &calls)).unwrap();
    assert_eq!(s.get_factor(&pressure()), 8.0);
    s.set_factor(&pressure(), 100.0);
    assert_eq!(s.get_factor(&pressure()), 8.0);
    s.add_factor(&pressure(), 100.0);
    assert_eq!(s.get_factor(&pressure()), 8.0);
    assert_eq!(calls.get(), 1);
}

#[test]
fn arity_mismatch_is_refused() {
    let mut s: System = FormulaSystem::new(0.0);
    let r = s.add_formula(formula(vec![pop_size()], 2, boxed(|v: Vec<f32>| v[0] + v[1]), pressure()));
    assert_eq!(r, Err(FormulaError::ArityMismatch));
    assert_eq!(s.get_formula(&pressure()), Err(FormulaError::NotAFormula));
}

#[test]
fn cycles_are_refused() {
    let a = (GameId::Culture(1), FactorType::PopSize);
    let b = (GameId::Culture(1), FactorType::PopPressure);
    let mut s: System = FormulaSystem::new(0.0);
    let own = s.add_formula(formula(vec![a], 1, boxed(|v: Vec<f32>| v[0]), a));
    assert_eq!(own, Err(FormulaError::CyclicDependency));
    s.add_formula(formula(vec![a], 1, boxed(|v: Vec<f32>| v[0] + 1.0), b)).unwrap();
    let back = s.add_formula(formula(vec![b], 1, boxed(|v: Vec<f32>| v[0] + 1.0), a));
    assert_eq!(back, Err(FormulaError::CyclicDependency));
    assert_eq!(s.get_formula(&a), Err(FormulaError::NotAFormula));
    assert_eq!(s.get_factor(&b), 1.0);
}

#[test]
fn formulas_are_numbered_and_indexed() {
    let mut s: System = FormulaSystem::new(0.0);
    let first = s.add_formula(formula(vec![pop_size()], 1, boxed(|v: Vec<f32>| v[0]), pressure())).unwrap();
    let second = s
        .add_formula(formula(vec![pop_size(), pressure()], 2, boxed(|v: Vec<f32>| v[0] + v[1]), capacity()))
        .unwrap();
    assert_eq!(first, FormulaName(0));
    assert_eq!(second, FormulaName(1));
    assert_eq!(s.get_formula(&pressure()), Ok(FormulaName(0)));
    assert_eq!(s.get_formula(&capacity()), Ok(FormulaName(1)));
    assert_eq!(s.get_formula(&pop_size()), Err(FormulaError::NotAFormula));
    assert_eq!(s.get_formulae(&pop_size()), vec![FormulaName(0), FormulaName(1)]);
    assert_eq!(s.get_formulae(&pressure()), vec![FormulaName(1)]);
    assert_eq!(s.get_formulae(&capacity()), Vec::<FormulaName>::new());
}

#[test]
fn insert_replaces_a_cell() {
    let calls = Rc::new(Cell::new(0));
    let mut s: System = FormulaSystem::new(0.0);
    s.insert_factor(&pop_size(), 1.0);
    s.insert_factor(&pop_size(), 2.5);
    assert_eq!(s.get_factor(&pop_size()), 2.5);
    s.add_formula(doubling(pop_size(), pressure(), &calls)).unwrap();
    assert_eq!(s.get_factor(&pressure()), 5.0);
    s.insert_factor(&pressure(), 9.0);
    assert_eq!(s.get_factor(&pressure()), 9.0);
    assert_eq!(s.get_formula(&pressure()), Err(FormulaError::NotAFormula));
    s.set_factor(&pressure(), 11.0);
    assert_eq!(s.get_factor(&pressure()), 11.0);
}

#[test]
fn add_factor_accumulates() {
    let mut s: System = FormulaSystem::new(0.0);
    s.insert_factor(&pop_size(), 1.5);
    s.add_factor(&pop_size(), 2.0);
    s.add_factor(&pop_size(), -0.5);
    assert_eq!(s.get_factor(&pop_size()), 3.0);
}

#[test]
fn formula_with_three_inputs() {
    let k1 = (GameId::Polity(1), FactorType::PopSize);
    let k2 = (GameId::Polity(2), FactorType::PopSize);
    let k3 = (GameId::Polity(3), FactorType::PopSize);
    let total = (GameId::Polity(0), FactorType::PopSize);
    let mut s: System = FormulaSystem::new(0.0);
    s.insert_factor(&k1, 1.0);
    s.insert_factor(&k2, 2.0);
    let f = Formula::new(
        vec![k1, k2, k3],
        FormulaFn::new_three(boxed(|v: Vec<f32>| v[0] + v[1] * 10.0 + v[2] * 100.0)),
        total,
    );
    s.add_formula(f).unwrap();
    assert_eq!(s.get_factor(&total), 21.0);
    s.insert_factor(&k3, 3.0);
    assert_eq!(s.get_factor(&total), 321.0);
}

#[test]
fn formula_fn_runs_its_function() {
    let f = FormulaFn::new_two(boxed(|v: Vec<f32>| v[0] - v[1]));
    assert_eq!(f.arity, 2);
    assert_eq!(f.run(vec![5.0, 3.0]), 2.0);
    let g = Formula::new(vec![pop_size()], FormulaFn::new_one(boxed(|v: Vec<f32>| v[0] * 3.0)), pressure());
    assert_eq!(g.calc(vec![2.0]), 6.0);
}

#[test]
fn formula_without_inputs_is_a_constant() {
    let k = (GameId::Character(2), FactorType::PopHarvest);
    let mut s: System = FormulaSystem::new(0.0);
    s.add_formula(formula(Vec::new(), 0, boxed(|_v: Vec<f32>| 12.5), k)).unwrap();
    assert_eq!(s.get_factor(&k), 12.5);
    assert_eq!(s.get_formulae(&k), Vec::<FormulaName>::new());
}

#[test]
fn repeated_input_key() {
    let a = (GameId::Language(1), FactorType::PopSize);
    let b = (GameId::Language(1), FactorType::PopPressure);
    let mut s: System = FormulaSystem::new(0.0);
    s.insert_factor(&a, 3.0);
    s.add_formula(formula(vec![a, a], 2, boxed(|v: Vec<f32>| v[0] * v[1]), b)).unwrap();
    assert_eq!(s.get_factor(&b), 9.0);
    s.set_factor(&a, 4.0);
    assert_eq!(s.get_factor(&b), 16.0);
    assert_eq!(s.get_formulae(&a), vec![FormulaName(0), FormulaName(0)]);
}

#[test]
fn replacing_a_formula_redirects_readers() {
    let a = (GameId::Polity(5), FactorType::PopSize);
    let b = (GameId::Polity(5), FactorType::PopPressure);
    let c = (GameId::Polity(5), FactorType::PopHarvest);
    let mut s: System = FormulaSystem::new(0.0);
    s.insert_factor(&a, 2.0);
    s.add_formula(formula(vec![a], 1, boxed(|v: Vec<f32>| v[0] + 1.0), b)).unwrap();
    s.add_formula(formula(vec![b], 1, boxed(|v: Vec<f32>| v[0] * 10.0), c)).unwrap();
    assert_eq!(s.get_factor(&c), 30.0);
    let id = s.add_formula(formula(vec![a], 1, boxed(|v: Vec<f32>| v[0] - 1.0), b)).unwrap();
    assert_eq!(id, FormulaName(2));
    assert_eq!(s.get_formula(&b), Ok(FormulaName(2)));
    assert_eq!(s.get_factor(&c), 10.0);
    let back = s.add_formula(formula(vec![c], 1, boxed(|v: Vec<f32>| v[0]), a));
    assert_eq!(back, Err(FormulaError::CyclicDependency));
}

#[test]
fn derived_write_leaves_readers_clean() {
    let inner = Rc::new(Cell::new(0));
    let outer = Rc::new(Cell::new(0));
    let c = (GameId::Pop(3), FactorType::PopHarvest);
    let mut s: System = FormulaSystem::new(0.0);
    s.insert_factor(&pop_size(), 5.0);
    s.add_formula(doubling(pop_size(), pressure(), &inner)).unwrap();
    s.add_formula(doubling(pressure(), c, &outer)).unwrap();
    assert_eq!(s.get_factor(&c), 20.0);
    s.set_factor(&pressure(), 1.0);
    s.add_factor(&pressure(), 1.0);
    s.set_factor(&(GameId::Pop(9), FactorType::PopSize), 1.0);
    assert_eq!(s.get_factor(&c), 20.0);
    assert_eq!(s.get_factor(&pressure()), 10.0);
    assert_eq!(inner.get(), 1);
    assert_eq!(outer.get(), 1);
}

#[test]
fn readers_listed_in_registration_order() {
    let a = (GameId::Province(8), FactorType::PopSize);
    let b = (GameId::Province(8), FactorType::PopPressure);
    let c = (GameId::Province(8), FactorType::PopHarvest);
    let mut s: System = FormulaSystem::new(0.0);
    s.add_formula(formula(vec![pop_size(), a], 2, boxed(|v: Vec<f32>| v[0] + v[1]), b)).unwrap();
    s.add_formula(formula(vec![a], 1, boxed(|v: Vec<f32>| v[0]), c)).unwrap();
    s.add_formula(formula(vec![a, pop_size(), a], 3, boxed(|v: Vec<f32>| v[0]), pressure())).unwrap();
    assert_eq!(s.get_formulae(&a), vec![FormulaName(0), FormulaName(1), FormulaName(2), FormulaName(2)]);
    assert_eq!(s.get_formulae(&pop_size()), vec![FormulaName(0), FormulaName(2)]);
}
