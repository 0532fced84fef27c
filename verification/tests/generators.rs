use be_generust::emit::Generator;
use be_generust::protocol::Exit;
use be_generust::sig::{
    FnArg, GenericArgument, Pat, PathArguments, PathSegment, Rejection, ReturnType, Signature,
    Type, TypeParamBound,
};
use be_generust::walker::{Expr, Invocation, MacroPath, Step, Stmt, Syntax, Unsupported};
use be_generust::{giver, Diagnostic, Expansion, Failure, Function};
use proc_macro2::TokenStream;
use quote::ToTokens;
use std::collections::HashMap;
use syn::visit::{self, Visit};

type Lowered = Expansion<syn::Stmt, TokenStream, syn::Type>;

// Reading the syntax tree.

fn read_signature(sig: &syn::Signature) -> Signature<syn::Type> {
    Signature {
        constness: sig.constness.is_some(),
        asyncness: sig.asyncness.is_some(),
        unsafety: sig.unsafety.is_some(),
        abi: sig.abi.is_some(),
        variadic: sig.variadic.is_some(),
        ident: sig.ident.to_string(),
        inputs: sig.inputs.iter().map(read_fn_arg).collect(),
        output: read_return_type(&sig.output),
    }
}

fn read_fn_arg(arg: &syn::FnArg) -> FnArg<syn::Type> {
    match arg {
        syn::FnArg::Receiver(_) => FnArg::Receiver,
        syn::FnArg::Typed(pat_type) => FnArg::Typed {
            pat: match &*pat_type.pat {
                syn::Pat::Ident(pat_ident) => Pat::Ident {
                    ident: pat_ident.ident.to_string(),
                    by_ref: pat_ident.by_ref.is_some(),
                    subpat: pat_ident.subpat.is_some(),
                },
                _ => Pat::Other,
            },
            ty: (*pat_type.ty).clone(),
        },
    }
}

fn read_return_type(output: &syn::ReturnType) -> ReturnType<syn::Type> {
    match output {
        syn::ReturnType::Default => ReturnType::Default,
        syn::ReturnType::Type(_, boxed_type) => ReturnType::Type(match &**boxed_type {
            syn::Type::ImplTrait(it) => Type::ImplTrait(it.bounds.iter().map(read_bound).collect()),
            _ => Type::Other,
        }),
    }
}

fn read_bound(bound: &syn::TypeParamBound) -> TypeParamBound<syn::Type> {
    match bound {
        syn::TypeParamBound::Trait(tb) => {
            TypeParamBound::Trait(tb.path.segments.iter().map(read_segment).collect())
        }
        syn::TypeParamBound::Lifetime(_) => TypeParamBound::Lifetime,
    }
}

fn read_segment(segment: &syn::PathSegment) -> PathSegment<syn::Type> {
    PathSegment {
        ident: segment.ident.to_string(),
        arguments: match &segment.arguments {
            syn::PathArguments::None => PathArguments::Absent,
            syn::PathArguments::AngleBracketed(ga) => PathArguments::AngleBracketed(
                ga.args
                    .iter()
                    .map(|arg| match arg {
                        syn::GenericArgument::Binding(b) => GenericArgument::Binding {
                            ident: b.ident.to_string(),
                            ty: b.ty.clone(),
                        },
                        _ => GenericArgument::Other,
                    })
                    .collect(),
            ),
            syn::PathArguments::Parenthesized(_) => PathArguments::Parenthesized,
        },
    }
}

fn read_stmt(stmt: &syn::Stmt) -> Stmt<syn::Stmt, TokenStream> {
    let syntax = match stmt {
        syn::Stmt::Local(_) => Syntax::Local,
        syn::Stmt::Item(_) => Syntax::Item,
        syn::Stmt::Expr(e) => Syntax::Expr(read_expr(e)),
        syn::Stmt::Semi(e, _) => Syntax::Semi(read_expr(e)),
    };
    let mut found = Invocations { found: Vec::new(), items: 0 };
    match stmt {
        syn::Stmt::Expr(syn::Expr::Macro(_)) | syn::Stmt::Semi(syn::Expr::Macro(_), _) => {}
        _ => found.visit_stmt(stmt),
    }
    Stmt { syntax, macros: found.found, node: stmt.clone() }
}

fn read_expr(expr: &syn::Expr) -> Expr<TokenStream> {
    match expr {
        syn::Expr::Macro(mac_expr) => Expr::Macro {
            path: read_macro_path(&mac_expr.mac.path),
            tokens: mac_expr.mac.tokens.clone(),
        },
        _ => Expr::Other,
    }
}

fn read_macro_path(path: &syn::Path) -> MacroPath {
    MacroPath {
        leading_colon: path.leading_colon.is_some(),
        segments: path.segments.iter().map(|segment| segment.ident.to_string()).collect(),
    }
}

struct Invocations {
    found: Vec<Invocation>,
    items: usize,
}

impl<'ast> Visit<'ast> for Invocations {
    fn visit_macro(&mut self, mac: &'ast syn::Macro) {
        self.found.push(Invocation { path: read_macro_path(&mac.path), in_item: self.items > 0 });
    }

    fn visit_item(&mut self, item: &'ast syn::Item) {
        match item {
            syn::Item::Macro(item_macro) => self.visit_macro(&item_macro.mac),
            _ => {
                self.items += 1;
                visit::visit_item(self, item);
                self.items -= 1;
            }
        }
    }
}

/// Parses `source` as one function and lowers it.
fn expand(attr: &str, source: &str) -> Lowered {
    let func: syn::ItemFn = syn::parse_str(source).expect("the source is one function");
    let function = Function {
        sig: read_signature(&func.sig),
        body: func.block.stmts.iter().map(read_stmt).collect(),
    };
    giver(attr, function)
}

fn generator(source: &str) -> Generator<syn::Stmt, TokenStream, syn::Type> {
    match expand("", source) {
        Expansion::Machine { generator, .. } => generator,
        Expansion::Placeholder(diagnostic) => panic!("not lowered: {}", diagnostic.message),
    }
}

// Running what was generated.

/// Values by name: the fields of the holder, or the variables of one arm.
type Scope = HashMap<String, i64>;

fn lookup(name: &str, locals: &Scope, holder: &Scope) -> i64 {
    match locals.get(name).or(holder.get(name)) {
        Some(value) => *value,
        None => panic!("`{}` is not in scope", name),
    }
}

fn eval(expr: &syn::Expr, locals: &Scope, holder: &Scope) -> i64 {
    match expr {
        syn::Expr::Lit(syn::ExprLit { lit: syn::Lit::Int(int), .. }) => {
            int.base10_parse().expect("an integer")
        }
        syn::Expr::Path(path) => {
            lookup(&path.path.get_ident().expect("a variable").to_string(), locals, holder)
        }
        syn::Expr::Paren(paren) => eval(&paren.expr, locals, holder),
        syn::Expr::Unary(syn::ExprUnary { op: syn::UnOp::Neg(_), expr, .. }) => {
            -eval(expr, locals, holder)
        }
        syn::Expr::Binary(binary) => {
            let left = eval(&binary.left, locals, holder);
            let right = eval(&binary.right, locals, holder);
            match binary.op {
                syn::BinOp::Add(_) => left + right,
                syn::BinOp::Sub(_) => left - right,
                syn::BinOp::Mul(_) => left * right,
                _ => panic!("an operator that these tests do not use"),
            }
        }
        syn::Expr::MethodCall(call) if call.method == "abs" => {
            eval(&call.receiver, locals, holder).abs()
        }
        syn::Expr::Field(syn::ExprField { member: syn::Member::Named(field), .. }) => {
            lookup(&field.to_string(), &Scope::new(), holder)
        }
        _ => panic!("an expression that these tests do not use"),
    }
}

fn bound_name(pat: &syn::Pat) -> String {
    match pat {
        syn::Pat::Ident(pat_ident) => pat_ident.ident.to_string(),
        syn::Pat::Type(pat_type) => bound_name(&pat_type.pat),
        _ => panic!("a pattern that these tests do not use"),
    }
}

fn exec(stmt: &syn::Stmt, locals: &mut Scope, holder: &Scope) {
    match stmt {
        syn::Stmt::Local(local) => {
            let (_, init) = local.init.as_ref().expect("an initial value");
            let value = eval(init, locals, holder);
            locals.insert(bound_name(&local.pat), value);
        }
        syn::Stmt::Item(_) => {}
        syn::Stmt::Semi(syn::Expr::AssignOp(assign), _) => {
            let syn::Expr::Path(target) = &*assign.left else {
                panic!("an assignment that these tests do not use");
            };
            let name = target.path.get_ident().expect("a variable").to_string();
            let right = eval(&assign.right, locals, holder);
            let slot = locals.get_mut(&name).expect("a variable of this arm");
            match assign.op {
                syn::BinOp::AddEq(_) => *slot += right,
                _ => panic!("an operator that these tests do not use"),
            }
        }
        _ => panic!("a statement that these tests do not use"),
    }
}

/// Calls the constructor with `args`, then the step function until it
/// reports exhaustion, and twice more. One call dispatches until an arm
/// returns. The variables of an arm live for one dispatch, the fields of the
/// holder for all of them.
fn collect(generator: &Generator<syn::Stmt, TokenStream, syn::Type>, args: &[i64]) -> Vec<i64> {
    assert_eq!(generator.fields.len(), args.len());
    let mut holder = Scope::new();
    for (field, arg) in generator.fields.iter().zip(args) {
        holder.insert(field.name.clone(), *arg);
    }
    let mut state = generator.start;
    let mut items = Vec::new();
    let mut exhausted = 0;
    while exhausted < 3 {
        let mut locals = Scope::new();
        let turn = generator.poll(state).expect("every state selects an arm");
        for stmt in turn.ran.iter() {
            exec(stmt, &mut locals, &holder);
        }
        state = turn.state;
        match turn.exit {
            Exit::Give(tokens) => {
                assert_eq!(exhausted, 0, "a value after exhaustion");
                let expr: syn::Expr = syn::parse2(tokens.clone()).expect("one expression");
                items.push(eval(&expr, &locals, &holder));
            }
            Exit::Finish => {
                assert!(turn.ran.is_empty(), "statements ran with the report of exhaustion");
                exhausted += 1;
            }
            Exit::Again => assert_eq!(exhausted, 0, "statements ran after exhaustion"),
        }
    }
    items
}

#[test]
fn test_single() {
    let single = generator(
        "fn single() -> impl Iterator<Item = i64> {
            give!(1);
        }",
    );
    assert_eq!(collect(&single, &[]), vec![1]);
}

#[test]
fn test_multi() {
    let multi = generator(
        "fn multi() -> impl Iterator<Item = i64> {
            give!(1);
            give!(2);
            give!(3);
        }",
    );
    assert_eq!(collect(&multi, &[]), vec![1, 2, 3]);
}

#[test]
fn test_params_test_simple() {
    let with_params = generator(
        "fn with_params(_a: i64, _b: i64, _c: i64) -> impl Iterator<Item = i64> {
            give!(1);
            give!(2);
            give!(3);
        }",
    );
    assert_eq!(collect(&with_params, &[1, 2, 3]), vec![1, 2, 3]);
}

#[test]
fn test_vars_test_simple() {
    let simple = generator(
        "fn simple() -> impl Iterator<Item = i64> {
            let w = 1;
            let x = w * w;
            give!(x);
            let mut y = 1;
            y += y;
            give!(y);
            let z: i64 = -3;
            give!(z.abs());
        }",
    );
    assert_eq!(collect(&simple, &[]), vec![1, 2, 3]);
}

#[test]
fn no_yield_point_produces_nothing() {
    let nothing = generator("fn nothing() -> impl Iterator<Item = i64> {}");
    assert_eq!(collect(&nothing, &[]), Vec::<i64>::new());
}

#[test]
fn statements_without_a_yield_point_produce_nothing() {
    let nothing = generator(
        "fn nothing() -> impl Iterator<Item = i64> {
            let a = 1;
            let mut b = a + a;
            b += a;
        }",
    );
    assert_eq!(nothing.variants, vec!["S0_Start", "S1_End"]);
    assert_eq!(collect(&nothing, &[]), Vec::<i64>::new());
}

#[test]
fn statements_after_the_last_yield_point_end_the_sequence() {
    let early = generator(
        "fn early() -> impl Iterator<Item = i64> {
            let a = 4;
            give!(a);
            let b = 4;
            give!(b * b);
            let unused = 0;
        }",
    );
    assert_eq!(collect(&early, &[]), vec![4, 16]);
}

#[test]
fn parameters_are_read_from_the_holder() {
    let with_params = generator(
        "fn with_params(a: i64, b: i64, c: i64) -> impl Iterator<Item = i64> {
            give!(self.param_a);
            let sum = self.param_b + self.param_c;
            give!(sum);
            give!(self.param_c - self.param_a);
        }",
    );
    assert_eq!(collect(&with_params, &[1, 2, 3]), vec![1, 5, 2]);
    assert_eq!(collect(&with_params, &[10, -2, 7]), vec![10, 5, -3]);
}

#[test]
fn the_declarations_of_a_parsed_function() {
    let multi = generator(
        "pub fn two_values(first: i64, mut second: u8) -> impl Iterator<Item = i64> {
            give!(first);
            println!(\"between\");
            give!(second as i64);
        }",
    );
    assert_eq!(multi.module, "two_values_mod");
    assert_eq!(multi.state_enum, "TwoValuesState");
    assert_eq!(multi.holder, "TwoValues");
    assert_eq!(multi.constructor, "two_values");
    assert_eq!(multi.variants, vec!["S0_Start", "S1_AfterGive", "S2_AfterGive", "S3_End"]);
    assert_eq!(multi.item.to_token_stream().to_string(), "i64");
    let fields: Vec<(&str, &str, String)> = multi
        .fields
        .iter()
        .map(|f| (f.name.as_str(), f.param.as_str(), f.ty.to_token_stream().to_string()))
        .collect();
    assert_eq!(
        fields,
        vec![("param_first", "first", "i64".to_string()), ("param_second", "second", "u8".to_string())]
    );
    let arms: Vec<(Vec<usize>, Vec<String>)> = multi
        .arms
        .iter()
        .map(|arm| {
            let body = arm
                .body
                .iter()
                .map(|step| match step {
                    Step::Copy(stmt) => format!("copy {}", stmt.to_token_stream()),
                    Step::Enter(next) => format!("enter {}", next),
                    Step::Give(tokens) => format!("give {}", tokens),
                    Step::Finish => "finish".to_string(),
                })
                .collect();
            (arm.states.clone(), body)
        })
        .collect();
    assert_eq!(
        arms,
        vec![
            (vec![0], vec!["enter 1".to_string(), "give first".to_string()]),
            (
                vec![1],
                vec![
                    "copy println ! (\"between\") ;".to_string(),
                    "enter 2".to_string(),
                    "give second as i64".to_string()
                ]
            ),
            (vec![2, 3], vec!["finish".to_string()]),
        ]
    );
}

/// The diagnostic for a function that is not lowered.
fn diagnostic(attr: &str, source: &str) -> Diagnostic {
    match expand(attr, source) {
        Expansion::Placeholder(diagnostic) => diagnostic,
        Expansion::Machine { .. } => panic!("lowered: {}", source),
    }
}

fn report(failure: Failure, message: &str) -> Diagnostic {
    Diagnostic { failure, message: message.to_string() }
}

#[test]
fn an_async_function_is_not_lowered() {
    assert_eq!(
        diagnostic("", "async fn f() -> impl Iterator<Item = i64> { give!(1); }"),
        report(Failure::Signature(Rejection::Async), "[be_generust] iterator cannot be async")
    );
}

#[test]
fn a_method_is_not_lowered() {
    assert_eq!(
        diagnostic("", "fn f(&self, a: i64) -> impl Iterator<Item = i64> { give!(a); }"),
        report(
            Failure::Signature(Rejection::Receiver),
            "[be_generust] iterator cannot have a method receiver (self)"
        )
    );
}

#[test]
fn a_reference_binding_is_not_lowered() {
    assert_eq!(
        diagnostic("", "fn f(a: i64, ref b: i64) -> impl Iterator<Item = i64> { give!(a); }"),
        report(
            Failure::Signature(Rejection::Reference(1)),
            "[be_generust] iterator cannot have reference arguments"
        )
    );
}

#[test]
fn other_signatures_that_are_not_lowered() {
    let rejected = |source: &str| match diagnostic("print", source).failure {
        Failure::Signature(rejection) => rejection,
        Failure::Body(_) => panic!("failed on the body: {}", source),
    };
    assert_eq!(rejected("const fn f() -> impl Iterator<Item = i64> {}"), Rejection::Const);
    assert_eq!(rejected("unsafe fn f() -> impl Iterator<Item = i64> {}"), Rejection::Unsafe);
    assert_eq!(rejected("extern \"C\" fn f() -> impl Iterator<Item = i64> {}"), Rejection::Extern);
    assert_eq!(
        rejected("fn f(a: i64, b @ 1..=2: i64) -> impl Iterator<Item = i64> {}"),
        Rejection::Subpattern(1)
    );
    assert_eq!(
        rejected("fn f((a, b): (i64, i64)) -> impl Iterator<Item = i64> {}"),
        Rejection::Pattern(0)
    );
    assert_eq!(rejected("fn f() {}"), Rejection::ReturnType);
    assert_eq!(rejected("fn f() -> Vec<i64> {}"), Rejection::ReturnType);
    assert_eq!(rejected("fn f() -> impl Iterator<Item = i64> + Send {}"), Rejection::ReturnType);
    assert_eq!(rejected("fn f() -> impl std::iter::Iterator<Item = i64> {}"), Rejection::ReturnType);
    assert_eq!(rejected("fn f() -> impl IntoIterator<Item = i64> {}"), Rejection::ReturnType);
    assert_eq!(rejected("fn f() -> impl Iterator {}"), Rejection::ReturnType);
    assert_eq!(rejected("fn f() -> impl Fn(i64) -> i64 {}"), Rejection::ReturnType);
}

#[test]
fn a_yield_marker_in_nested_code_is_not_lowered() {
    let misplaced = |source: &str| match diagnostic("", source).failure {
        Failure::Body(unsupported) => unsupported,
        Failure::Signature(_) => panic!("failed on the signature: {}", source),
    };
    let header = "fn f(c: bool) -> impl Iterator<Item = i64>";
    assert_eq!(
        misplaced(&format!("{} {{ give!(0); if c {{ give!(1); }} }}", header)),
        Unsupported { statement: 1 }
    );
    assert_eq!(
        misplaced(&format!("{} {{ loop {{ give!(1); }} }}", header)),
        Unsupported { statement: 0 }
    );
    assert_eq!(
        misplaced(&format!("{} {{ let a = 1; let b = a + give!(1); }}", header)),
        Unsupported { statement: 1 }
    );
    assert_eq!(
        misplaced(&format!("{} {{ let f = || {{ give!(1); }}; }}", header)),
        Unsupported { statement: 0 }
    );
    assert_eq!(
        misplaced(&format!("{} {{ give!(1); give!(2) }}", header)),
        Unsupported { statement: 1 }
    );
    assert_eq!(misplaced(&format!("{} {{ give! {{ 1 }} }}", header)), Unsupported { statement: 0 });
}

#[test]
fn a_yield_marker_in_a_nested_function_is_its_own() {
    let outer = generator(
        "fn outer() -> impl Iterator<Item = i64> {
            fn inner() -> impl Iterator<Item = i64> { give!(1); }
            give!(2);
        }",
    );
    assert_eq!(outer.variants, vec!["S0_Start", "S1_AfterGive", "S2_End"]);
}
