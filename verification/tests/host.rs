//! Tests that exercise the host side: callables, external objects with
//! properties, methods and indexing, and short-circuiting observed
//! through side effects.
use std::cell::RefCell;
use std::rc::Rc;

use molang::compile;
use molang::run;
use molang::Aliases;
use molang::Bindings;
use molang::External;
use molang::MolangError;
use molang::Value;

/// A host holding shared growable vectors and two callables: `1` builds
/// a vector from its arguments and `2` records that it was called.
struct VectorHost {
    vecs: Vec<Rc<RefCell<Vec<Value>>>>,
    boom_calls: usize,
}

impl VectorHost {
    fn new() -> VectorHost {
        VectorHost {
            vecs: Vec::new(),
            boom_calls: 0,
        }
    }
}

impl External for VectorHost {
    fn get(&mut self, obj: u64, property: &str) -> Value {
        match property {
            "length" => Value::Number(self.vecs[obj as usize].borrow().len() as i64),
            _ => Value::Null,
        }
    }

    fn set(&mut self, _obj: u64, property: &str, _value: Value) -> Result<(), MolangError> {
        Err(MolangError::NotAssignable(format!("vec.{property}")))
    }

    fn call_function(
        &mut self,
        obj: u64,
        function: &str,
        args: Vec<Value>,
    ) -> Result<Value, MolangError> {
        match function {
            "push" => {
                for arg in args {
                    self.vecs[obj as usize].borrow_mut().push(arg);
                }
                Ok(Value::Null)
            }
            _ => Err(MolangError::FunctionNotFound(function.to_string())),
        }
    }

    fn index_get(&mut self, obj: u64, index: Value) -> Result<Value, MolangError> {
        match index {
            Value::Number(n) if n >= 0 => Ok(self.vecs[obj as usize]
                .borrow()
                .get(n as usize)
                .cloned()
                .unwrap_or(Value::Null)),
            other => Err(MolangError::BadAccess(
                format!("Index {other:?}"),
                "Vec".to_string(),
            )),
        }
    }

    fn index_set(&mut self, obj: u64, index: Value, value: Value) -> Result<(), MolangError> {
        match index {
            Value::Number(n) if n >= 0 => {
                let vec = &self.vecs[obj as usize];
                let len = vec.borrow().len();
                if (n as usize) < len {
                    vec.borrow_mut()[n as usize] = value;
                    Ok(())
                } else {
                    Err(MolangError::BadAccess(n.to_string(), "Vec".to_string()))
                }
            }
            other => Err(MolangError::BadAccess(
                format!("Index {other:?}"),
                "Vec".to_string(),
            )),
        }
    }

    fn molang_eq(&self, obj: u64, rhs: &Value) -> bool {
        match rhs {
            Value::External(id) => Rc::ptr_eq(&self.vecs[obj as usize], &self.vecs[*id as usize]),
            _ => false,
        }
    }

    fn call(&mut self, function: u64, args: Vec<Value>) -> Result<Value, MolangError> {
        match function {
            1 => {
                self.vecs.push(Rc::new(RefCell::new(args)));
                Ok(Value::External((self.vecs.len() - 1) as u64))
            }
            2 => {
                self.boom_calls += 1;
                Ok(Value::Number(42))
            }
            _ => Err(MolangError::FunctionNotFound(function.to_string())),
        }
    }
}

/// A host with one callable, `max`, picking the largest of its numeric
/// arguments, bound as a field of a `math` struct so the script calls
/// it as a dotted name.
struct MathHost;

impl External for MathHost {
    fn get(&mut self, _obj: u64, _property: &str) -> Value {
        Value::Null
    }

    fn set(&mut self, _obj: u64, property: &str, _value: Value) -> Result<(), MolangError> {
        Err(MolangError::NotAssignable(property.to_string()))
    }

    fn call_function(
        &mut self,
        _obj: u64,
        function: &str,
        _args: Vec<Value>,
    ) -> Result<Value, MolangError> {
        Err(MolangError::FunctionNotFound(function.to_string()))
    }

    fn index_get(&mut self, _obj: u64, _index: Value) -> Result<Value, MolangError> {
        Err(MolangError::BadAccess("[]".to_string(), "External".to_string()))
    }

    fn index_set(&mut self, _obj: u64, _index: Value, _value: Value) -> Result<(), MolangError> {
        Err(MolangError::BadAccess("[]".to_string(), "External".to_string()))
    }

    fn molang_eq(&self, _obj: u64, _rhs: &Value) -> bool {
        false
    }

    fn call(&mut self, function: u64, args: Vec<Value>) -> Result<Value, MolangError> {
        match function {
            1 => {
                let mut biggest: Option<i64> = None;
                for arg in args {
                    if let Value::Number(num) = arg {
                        match biggest {
                            None => biggest = Some(num),
                            Some(big) if num > big => biggest = Some(num),
                            _ => {}
                        }
                    } else {
                        return Err(MolangError::FunctionError("Expected a number".to_string()));
                    }
                }
                Ok(Value::Number(biggest.ok_or(MolangError::FunctionError(
                    "No arguments passed to max".to_string(),
                ))?))
            }
            _ => Err(MolangError::FunctionNotFound(function.to_string())),
        }
    }
}

#[test]
fn function() {
    let mut constants = Bindings::new();
    let mut math = Bindings::new();
    math.insert("max".to_string(), Value::Function(1));
    constants.insert("math".to_string(), Value::Struct(math));
    let block = compile("math.max(1, 5, 2) * 100").unwrap();
    assert_eq!(
        Ok(Value::Number(500)),
        run(
            &block,
            &constants,
            &mut Bindings::new(),
            &Aliases::new(),
            &mut MathHost,
        )
    );
}

fn vector_env() -> Bindings {
    let mut constants = Bindings::new();
    constants.insert("array".to_string(), Value::Function(1));
    constants.insert("boom".to_string(), Value::Function(2));
    constants
}

#[test]
fn method_dispatch_on_externals() {
    let constants = vector_env();
    let mut variables = Bindings::new();
    variables.insert("x".to_string(), Value::Null);
    let mut host = VectorHost::new();
    let first = compile("x = array(1, 2)").unwrap();
    run(&first, &constants, &mut variables, &Aliases::new(), &mut host).unwrap();
    let before = Rc::clone(&host.vecs[0]);
    let second = compile("x.push(3)").unwrap();
    run(&second, &constants, &mut variables, &Aliases::new(), &mut host).unwrap();
    let third = compile("x.length").unwrap();
    assert_eq!(
        Ok(Value::Number(3)),
        run(&third, &constants, &mut variables, &Aliases::new(), &mut host)
    );
    // The handle observed before and after the push refers to the same
    // underlying object.
    assert!(Rc::ptr_eq(&before, &host.vecs[0]));
}

#[test]
fn external_identity_equality() {
    let constants = vector_env();
    let mut variables = Bindings::new();
    variables.insert("x".to_string(), Value::Null);
    let mut host = VectorHost::new();
    let setup = compile("x = array(1)").unwrap();
    run(&setup, &constants, &mut variables, &Aliases::new(), &mut host).unwrap();
    let same = compile("x == x").unwrap();
    assert_eq!(
        Ok(Value::Number(1)),
        run(&same, &constants, &mut variables, &Aliases::new(), &mut host)
    );
}

#[test]
fn external_indexing() {
    let constants = vector_env();
    let mut variables = Bindings::new();
    variables.insert("x".to_string(), Value::Null);
    let mut host = VectorHost::new();
    let setup = compile("x = array(7, 8, 9)").unwrap();
    run(&setup, &constants, &mut variables, &Aliases::new(), &mut host).unwrap();
    let read = compile("x[1]").unwrap();
    assert_eq!(
        Ok(Value::Number(8)),
        run(&read, &constants, &mut variables, &Aliases::new(), &mut host)
    );
    let write = compile("x[1] = 80").unwrap();
    run(&write, &constants, &mut variables, &Aliases::new(), &mut host).unwrap();
    let reread = compile("x[1]").unwrap();
    assert_eq!(
        Ok(Value::Number(80)),
        run(&reread, &constants, &mut variables, &Aliases::new(), &mut host)
    );
}

#[test]
fn untaken_ternary_branch_is_not_evaluated() {
    let constants = vector_env();
    let mut variables = Bindings::new();
    let mut host = VectorHost::new();
    let block = compile("1 ? 100 : boom()").unwrap();
    assert_eq!(
        Ok(Value::Number(100)),
        run(&block, &constants, &mut variables, &Aliases::new(), &mut host)
    );
    assert_eq!(0, host.boom_calls);
    let other = compile("0 ? boom() : 200").unwrap();
    assert_eq!(
        Ok(Value::Number(200)),
        run(&other, &constants, &mut variables, &Aliases::new(), &mut host)
    );
    assert_eq!(0, host.boom_calls);
}

#[test]
fn taken_ternary_branch_is_evaluated() {
    let constants = vector_env();
    let mut variables = Bindings::new();
    let mut host = VectorHost::new();
    let block = compile("0 ? 100 : boom()").unwrap();
    assert_eq!(
        Ok(Value::Number(42)),
        run(&block, &constants, &mut variables, &Aliases::new(), &mut host)
    );
    assert_eq!(1, host.boom_calls);
}

#[test]
fn nullish_fallback_not_evaluated_when_primary_is_set() {
    let constants = vector_env();
    let mut variables = Bindings::new();
    variables.insert("a".to_string(), Value::Number(4));
    let mut host = VectorHost::new();
    let block = compile("a ?? boom()").unwrap();
    assert_eq!(
        Ok(Value::Number(4)),
        run(&block, &constants, &mut variables, &Aliases::new(), &mut host)
    );
    assert_eq!(0, host.boom_calls);
}

#[test]
fn nullish_fallback_evaluated_on_null() {
    let constants = vector_env();
    let mut variables = Bindings::new();
    variables.insert("a".to_string(), Value::Null);
    let mut host = VectorHost::new();
    let block = compile("a ?? boom()").unwrap();
    assert_eq!(
        Ok(Value::Number(42)),
        run(&block, &constants, &mut variables, &Aliases::new(), &mut host)
    );
    assert_eq!(1, host.boom_calls);
}

#[test]
fn statements_after_return_are_not_evaluated() {
    let constants = vector_env();
    let mut variables = Bindings::new();
    let mut host = VectorHost::new();
    let block = compile("1; return 5; boom();").unwrap();
    assert_eq!(
        Ok(Value::Number(5)),
        run(&block, &constants, &mut variables, &Aliases::new(), &mut host)
    );
    assert_eq!(0, host.boom_calls);
}

#[test]
fn missing_external_property_is_null() {
    let constants = vector_env();
    let mut variables = Bindings::new();
    variables.insert("b".to_string(), Value::Number(6));
    variables.insert("x".to_string(), Value::Null);
    let mut host = VectorHost::new();
    let setup = compile("x = array(1)").unwrap();
    run(&setup, &constants, &mut variables, &Aliases::new(), &mut host).unwrap();
    let block = compile("x.missing ?? b").unwrap();
    assert_eq!(
        Ok(Value::Number(6)),
        run(&block, &constants, &mut variables, &Aliases::new(), &mut host)
    );
}

#[test]
fn unknown_method_fails_with_function_not_found() {
    let constants = vector_env();
    let mut variables = Bindings::new();
    variables.insert("x".to_string(), Value::Null);
    let mut host = VectorHost::new();
    let setup = compile("x = array(1)").unwrap();
    run(&setup, &constants, &mut variables, &Aliases::new(), &mut host).unwrap();
    let block = compile("x.pop()").unwrap();
    assert_eq!(
        Err(MolangError::FunctionNotFound("pop".to_string())),
        run(&block, &constants, &mut variables, &Aliases::new(), &mut host)
    );
}

#[test]
fn chained_construction_and_method_call() {
    let constants = vector_env();
    let mut variables = Bindings::new();
    let mut host = VectorHost::new();
    let block = compile("array(1, 2).push(3)").unwrap();
    run(&block, &constants, &mut variables, &Aliases::new(), &mut host).unwrap();
    assert_eq!(3, host.vecs[0].borrow().len());
}
