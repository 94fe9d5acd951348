use fnaop::Aspect;
use proc_macro2::TokenStream;

// ---------------------------------------------------------------- helpers

fn tokens(source: &str) -> TokenStream {
    source.parse::<TokenStream>().unwrap()
}

/// The text of the function that the rewrite emits.
fn expand(args: &str, input: &str) -> String {
    match Aspect(tokens(args), tokens(input)) {
        Ok(emitted) => emitted.to_string(),
        Err(error) => panic!("the rewrite failed: {:?}", error),
    }
}

/// Source text as the token printer writes it. A `<` that stands directly
/// before a lifetime is read as glued to it, while the rewrite emits it on its
/// own: the expected texts below keep a space there.
fn printed(source: &str) -> String {
    tokens(source).to_string()
}

// ---------------------------------------------------------------- models

#[derive(Clone, Debug, PartialEq)]
pub struct HelloContext {
    pub x: i64,
    pub y: f64,
}

#[derive(Clone, Debug, PartialEq)]
pub struct LifetimeHelloContext<'a> {
    pub x: &'a i64,
    pub y: &'a f64,
}

// ---------------------------------------------------------------- tests

#[test]
fn test_aspect_say_hello() {
    let emitted = expand(
        r#"before = "before_fn", after = "after_fn""#,
        r#"pub fn say_hello(x: i64) {
            println!("Hello:say_hello, {}", x);
        }"#,
    );
    assert_eq!(
        emitted,
        printed(
            r#"pub fn say_hello(x: i64) {
                before_fn(&x);
                {
                    println!("Hello:say_hello, {}", x);
                }
                after_fn(&x);
            }"#
        )
    );

    say_hello(42);
}

#[test]
fn test_aspect_mod_say_hello() {
    let emitted = expand(
        r#"before = "before::before_fn", after = "after::after_fn""#,
        r#"pub fn mod_say_hello(x: i64, y: f64) {
            println!("mod:Hello, {}", x);
        }"#,
    );
    assert_eq!(
        emitted,
        printed(
            r#"pub fn mod_say_hello(x: i64, y: f64) {
                before::before_fn(&x, &y);
                {
                    println!("mod:Hello, {}", x);
                }
                after::after_fn(&x, &y);
            }"#
        )
    );
    let emitted = expand(
        r#"before = "before::empty_before_fn", after = "after::empty_after_fn""#,
        r#"pub fn mod_say_hello_empty() {
            println!("empty:Hello");
        }"#,
    );
    assert_eq!(
        emitted,
        printed(
            r#"pub fn mod_say_hello_empty() {
                before::empty_before_fn();
                {
                    println!("empty:Hello");
                }
                after::empty_after_fn();
            }"#
        )
    );

    mod_say_hello(9527, 8848.0);
    mod_say_hello_empty();
}

// ----------------------------------------------------------------

#[test]
fn test_aspect_say_hello_with_struct_parameter() {
    let emitted = expand(
        r#"before = "before::struct_before_fn", after = "after::struct_after_fn""#,
        r#"pub fn say_hello_with_struct_parameter(ctx: HelloContext) {
            println!("struct::Hello, {} {}", ctx.x, ctx.y);
        }"#,
    );
    assert_eq!(
        emitted,
        printed(
            r#"pub fn say_hello_with_struct_parameter(ctx: HelloContext) {
                before::struct_before_fn(&ctx);
                {
                    println!("struct::Hello, {} {}", ctx.x, ctx.y);
                }
                after::struct_after_fn(&ctx);
            }"#
        )
    );
    let emitted = expand(
        r#"before = "before::struct_before_fn", after = "after::struct_after_fn""#,
        r#"pub fn say_hello_with_struct_parameter_x(ctx: HelloContext) {
            println!("struct::Hello, {} {}", ctx.x, ctx.y);
        }"#,
    );
    assert_eq!(
        emitted,
        printed(
            r#"pub fn say_hello_with_struct_parameter_x(ctx: HelloContext) {
                before::struct_before_fn(&ctx);
                {
                    println!("struct::Hello, {} {}", ctx.x, ctx.y);
                }
                after::struct_after_fn(&ctx);
            }"#
        )
    );

    let ctx = HelloContext {
        x: 9527,
        y: 8848.01,
    };
    say_hello_with_struct_parameter(ctx.clone());
    say_hello_with_struct_parameter_x(ctx.clone());
}

#[test]
fn test_aspect_say_hello_struct_lifetime() {
    let emitted = expand(
        r#"
            before = "before::struct_before_fn_lifetime",
            after = "after::struct_after_fn_lifetime"
        "#,
        r#"pub fn say_hello_struct_lifetime<'a>(ctx: LifetimeHelloContext<'a>) {
            println!("struct::Hello, {} {}", ctx.x, ctx.y);
        }"#,
    );
    assert_eq!(
        emitted,
        printed(
            r#"pub fn say_hello_struct_lifetime< 'a>(ctx: LifetimeHelloContext< 'a>) {
                before::struct_before_fn_lifetime(&ctx);
                {
                    println!("struct::Hello, {} {}", ctx.x, ctx.y);
                }
                after::struct_after_fn_lifetime(&ctx);
            }"#
        )
    );

    let x = 9527;
    let y = 8848.01;

    let ctx = LifetimeHelloContext { x: &x, y: &y };

    say_hello_struct_lifetime(ctx);
}

#[test]
fn test_aspect_say_hello_struct_lifetime_with_return() {
    let emitted = expand(
        r#"
            before = "before::struct_before_fn_lifetime",
            after = "after::struct_after_fn_lifetime"
        "#,
        r#"pub fn say_hello_struct_lifetime_with_return<'a>(ctx: LifetimeHelloContext<'a>) -> i64 {
            println!("struct::Hello, {} {}", ctx.x, ctx.y);

            *ctx.x
        }"#,
    );
    assert_eq!(
        emitted,
        printed(
            r#"pub fn say_hello_struct_lifetime_with_return< 'a>(ctx: LifetimeHelloContext< 'a>) -> i64 {
                before::struct_before_fn_lifetime(&ctx);
                let result = (|| {
                    {
                        println!("struct::Hello, {} {}", ctx.x, ctx.y);

                        *ctx.x
                    }
                })();
                after::struct_after_fn_lifetime(&ctx);
                result
            }"#
        )
    );

    let x = 9527;
    let y = 8848.01;

    let ctx = LifetimeHelloContext { x: &x, y: &y };
    let rvt = say_hello_struct_lifetime_with_return(ctx);

    assert_eq!(9527, rvt)
}

// ---------------------------------------------------------------- simple
//
// Each function below is the emitted text asserted above, written out.

pub fn say_hello(x: i64) {
    before_fn(&x);
    {
        println!("Hello:say_hello, {}", x);
    }
    after_fn(&x);
}

// ---------------------------------------------------------------- hooks under a path

pub fn mod_say_hello(x: i64, y: f64) {
    before::before_fn(&x, &y);
    {
        println!("mod:Hello, {}", x);
    }
    after::after_fn(&x, &y);
}

pub fn mod_say_hello_empty() {
    before::empty_before_fn();
    {
        println!("empty:Hello");
    }
    after::empty_after_fn();
}

// ---------------------------------------------------------------- struct.parameter

pub fn say_hello_with_struct_parameter(ctx: HelloContext) {
    before::struct_before_fn(&ctx);
    {
        println!("struct::Hello, {} {}", ctx.x, ctx.y);
    }
    after::struct_after_fn(&ctx);
}

pub fn say_hello_with_struct_parameter_x(ctx: HelloContext) {
    before::struct_before_fn(&ctx);
    {
        println!("struct::Hello, {} {}", ctx.x, ctx.y);
    }
    after::struct_after_fn(&ctx);
}

// ---------------------------------------------------------------- struct.parameter & lifetime

pub fn say_hello_struct_lifetime<'a>(ctx: LifetimeHelloContext<'a>) {
    before::struct_before_fn_lifetime(&ctx);
    {
        println!("struct::Hello, {} {}", ctx.x, ctx.y);
    }
    after::struct_after_fn_lifetime(&ctx);
}

pub fn say_hello_struct_lifetime_with_return<'a>(ctx: LifetimeHelloContext<'a>) -> i64 {
    before::struct_before_fn_lifetime(&ctx);
    let result = (|| {
        {
            println!("struct::Hello, {} {}", ctx.x, ctx.y);

            *ctx.x
        }
    })();
    after::struct_after_fn_lifetime(&ctx);
    result
}

// ---------------------------------------------------------------- aop.functions

fn before_fn(x: &i64) {
    println!("before_fn::Before: {}", x);
}

fn after_fn(x: &i64) {
    println!("before_fn::After: {}", x);
}

// ----------------------------------------------------------------
//
// The hooks that the attributes name by a two-segment path, as associated
// functions of two unit types.

#[allow(non_camel_case_types)]
struct before;

#[allow(non_camel_case_types)]
struct after;

impl before {
    pub fn before_fn(x: &i64, y: &f64) {
        println!("before::before_fn::Before: {} {}", x, y);
    }

    pub fn empty_before_fn() {
        println!("before::empty_before_fn::Before");
    }

    pub fn struct_before_fn(ctx: &HelloContext) {
        println!("before::struct_before_fn::Before: {} {}", ctx.x, ctx.y);
    }

    pub fn struct_before_fn_lifetime<'a>(ctx: &'a LifetimeHelloContext<'a>) {
        println!(
            "before::struct_before_fn_lifetime::Before: {} {}",
            ctx.x, ctx.y
        );
    }
}

impl after {
    pub fn after_fn(x: &i64, y: &f64) {
        println!("after::after_fn::After: {} {}", x, y);
    }

    pub fn empty_after_fn() {
        println!("after::empty_after_fn::After");
    }

    pub fn struct_after_fn(ctx: &HelloContext) {
        println!("after::struct_after_fn::After: {} {}", ctx.x, ctx.y);
    }

    pub fn struct_after_fn_lifetime<'a>(ctx: &'a LifetimeHelloContext<'a>) {
        println!(
            "after::struct_after_fn_lifetime::After: {} {}",
            ctx.x, ctx.y
        );
    }
}
