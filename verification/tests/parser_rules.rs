use lopa::parsing::lexer::Syntax;
use lopa::parsing::{parse_rule, Rule};

/// Parses `source` by `rule`; fails, listing the errors, where there are any.
fn parse(source: &str, rule: Rule) -> Vec<(u16, usize, usize)> {
    let (tree, errors) = parse_rule(source, rule);
    if !errors.is_empty() {
        let mut output = String::new();
        for err in errors {
            output.push_str(&format!("{:?}, token: {}", err.kind, &source[err.range]));
            output.push('\n');
        }
        panic!("{output}");
    }
    let nodes = tree.nodes();
    assert!(!nodes.is_empty());
    nodes
}

/// The kinds of the nodes and tokens, in order, whitespace left out.
fn shape(nodes: &[(u16, usize, usize)]) -> Vec<u16> {
    nodes
        .iter()
        .map(|n| n.0)
        .filter(|&k| k != Syntax::WHITESPACE.code() && k != Syntax::COMMENT.code())
        .collect()
}

fn count(shape: &[u16], k: Syntax) -> usize {
    shape.iter().filter(|&&c| c == k.code()).count()
}

#[test]
fn module() {
    let s = shape(&parse("fn some_func(){}", Rule::Module));
    assert_eq!(&s[..3], &[Syntax::MODULE.code(), Syntax::FN_ITEM.code(), Syntax::FN_KW.code()]);
    assert_eq!(count(&s, Syntax::FN_ITEM), 1);
    let s = shape(&parse("struct X {
        }
        impl X {
              fn test() {}
        }", Rule::Module));
    assert_eq!(&s[..2], &[Syntax::MODULE.code(), Syntax::STRUCT_ITEM.code()]);
    assert_eq!(count(&s, Syntax::STRUCT_ITEM), 1);
    assert_eq!(count(&s, Syntax::IMPL_ITEM), 1);
    assert_eq!(count(&s, Syntax::FN_ITEM), 1);
    let impl_at = s.iter().position(|&k| k == Syntax::IMPL_ITEM.code()).unwrap();
    let fn_at = s.iter().position(|&k| k == Syntax::FN_ITEM.code()).unwrap();
    assert!(impl_at < fn_at);
}

#[test]
fn mod_item() {
    let s = shape(&parse("mod my_mod { fn some_item() {} }", Rule::ModItem));
    assert_eq!(&s[..2], &[Syntax::MOD_ITEM.code(), Syntax::MOD_KW.code()]);
    assert_eq!(count(&s, Syntax::FN_ITEM), 1);
    let s = shape(&parse("mod my_mod;", Rule::ModItem));
    assert_eq!(&s[..2], &[Syntax::MOD_ITEM.code(), Syntax::MOD_KW.code()]);
}

#[test]
fn impl_item() {
    parse("impl Debug for Vec2 {
                fn debug_fmt(self, f: Formatter) {
                }
            }", Rule::ImplItem);
    parse("impl Vec2 {
                fn length();
                fn unit(self) -> Self; 
            }", Rule::ImplItem);
    let s = shape(&parse("impl Vec2 {
            }", Rule::ImplItem));
    assert_eq!(&s[..2], &[Syntax::IMPL_ITEM.code(), Syntax::IMPL_KW.code()]);
    parse("impl<A: C + B, D> Generic for MyType<A,B> {
            }", Rule::ImplItem);
}

#[test]
fn fn_item() {
    parse("fn test(a: int, b: string)->int { stmt; }", Rule::FnItem);
    parse("fn test() {
              let x: string = { 10           };
        }", Rule::FnItem);
    parse("fn identity<T>() -> T { }", Rule::FnItem);
    let s = shape(&parse("fn some_fuc(@label(not_a) a: int) { }", Rule::FnItem));
    assert_eq!(&s[..2], &[Syntax::FN_ITEM.code(), Syntax::FN_KW.code()]);
    assert_eq!(count(&s, Syntax::COMPILER_ATTRIB_LIST), 1);
}

#[test]
fn path() {
    parse("a : : b : : c", Rule::ExprPath);
    parse("root::hello", Rule::ExprPath);
    parse("hey<A,B,C>", Rule::ExprPath);
    parse("hey<A,B,C>", Rule::TypePath);
}

#[test]
fn path_segment() {
    parse("A", Rule::ExprPathSegment);
    parse("root", Rule::ExprPathSegment);
    parse("super", Rule::ExprPathSegment);
    parse("G<T1,T2>", Rule::ExprPathSegment);
}

#[test]
fn name() {
    parse("some_name", Rule::Name);
}

#[test]
fn return_type() {
    parse("-> SomeType", Rule::ReturnType);
}

#[test]
fn param() {
    parse("param: type,", Rule::Param);
}

#[test]
fn param_list() {
    parse("(a: int, b : string)", Rule::ParamList);
}

#[test]
fn type_expr() {
    parse("int", Rule::TypeExpr);
    parse("NotInt", Rule::TypeExpr);
    parse("fn(a : int, string) -> Result", Rule::TypeExpr);
    parse("(dyn Debug + Foo<T> + Bar<X,Y>)?", Rule::TypeExpr);
    parse("Generic::Path<A,B>::Yay", Rule::TypeExpr);
    parse("(int, string, yo,)", Rule::TypeExpr);
    parse("((),)", Rule::TypeExpr);
}

#[test]
fn item_type_expr() {
    parse("struct Name {
            value: String
        }", Rule::ItemTypeExpr);
    parse("enum Name {
                    value: String
                }
                ", Rule::ItemTypeExpr);
}

#[test]
fn stmt_expr() {
    parse("a;", Rule::StmtExpr);
    parse("1+1;", Rule::StmtExpr);
    parse("print();", Rule::StmtExpr);
    parse("no_semi % idk;", Rule::StmtExpr);
    parse("vec2 { };", Rule::StmtExpr);
}

#[test]
fn stmt_let() {
    parse("let x = 1;", Rule::StmtLet);
    parse("let y = 1;", Rule::StmtLet);
}

#[test]
fn block() {
    parse("{ }", Rule::Block);
    parse("{ 1 }", Rule::Block);
    parse("{ something; something_else; }", Rule::Block);
    parse("{ vec2 { a : 1 }; }", Rule::Block);
}

#[test]
fn pattern() {
    parse("ident", Rule::Pattern);
    parse("_", Rule::Pattern);
    parse("Color::Red", Rule::Pattern);
    parse("10.1", Rule::Pattern);
    parse("'hello there!'", Rule::Pattern);
    parse("true", Rule::Pattern);
}

#[test]
fn generic_shenanigans() {
    parse("method.call<A,B>()", Rule::Expr);
    parse("Vec<Vec<int>>::new()", Rule::Expr);
    parse("BegoneTurbofish<Yay, Finally> {a:b,c:d}", Rule::Expr);
    parse("let ty = Vec<int>;", Rule::StmtLet);
    parse("let ty = (Vec<int>);", Rule::StmtLet);
}

#[test]
fn expr() {
    parse("1", Rule::Expr);
    parse("1+1", Rule::Expr);
    parse("1+1*3/4%3", Rule::Expr);
    parse("1=2 or 3 and 4 == 5 != 6 < 7 + 8 * !true", Rule::Expr);
    parse("(1)", Rule::Expr);
    parse("1 + { 1 }", Rule::Expr);
    parse("if !true {} else {}", Rule::Expr);
    parse("if true {} else if VALUE { yo_mister_white }", Rule::Expr);
    parse("\"a string\"", Rule::Expr);
    parse("a[1](2)[3]", Rule::Expr);
    parse("a[1] = b = c", Rule::Expr);
    parse("sort(array, by: callback, something_else:)", Rule::Expr);
    parse("|x,y: int| lua { #return x+y; }", Rule::Expr);
    parse("()", Rule::Expr);
    parse("1.abs()", Rule::Expr);
    parse("pos[1][2].test().test.len()[0]", Rule::Expr);
    parse("math::Vec2 { x: 1, y: 2, }", Rule::Expr);
    parse("Vec2 {}", Rule::Expr);
    parse("(20 as float) as int", Rule::Expr);
    parse("generic_call<A>()", Rule::Expr);
    parse("obj.generic_method<A>()", Rule::Expr);
    parse("foo?.bar?.baz()", Rule::Expr);
    parse("x is value and x !is value", Rule::Expr);
    parse("std::Vec<int>::new()", Rule::Expr);
    parse("std::Vec::new<1 + 2>()", Rule::Expr);
    parse("(1,2,3)", Rule::Expr);
    parse("((),)", Rule::Expr);
    parse("Foo<i32>::bar<string>()", Rule::Expr);
    parse("for x in range(1,2) { print(x); }", Rule::Expr);
    parse("while true { idk(); }", Rule::Expr);
    parse("loop { panic(); }", Rule::Expr);
}

#[test]
fn enum_item() {
    parse("enum MyEnum {
                    A = 0,
                    B,
                    C,
                    foo: Foo,
                    bar: Bar,
                    fn test(self) -> FooBar {
                        self.foo + self.bar
                    }
        }", Rule::EnumItem);
}

#[test]
fn use_item() {
    let s = shape(&parse("use foo::bar::baz;", Rule::UseItem));
    assert_eq!(&s[..2], &[Syntax::USE_ITEM.code(), Syntax::USE_KW.code()]);
    parse("use foo::{bar,baz,*,self};", Rule::UseItem);
    parse("use root::test;", Rule::UseItem);
    parse("use super::test;", Rule::UseItem);
}

#[test]
fn struct_item() {
    let s = shape(&parse("struct Vec2 {x: Y, y: Y }", Rule::StructItem));
    assert_eq!(&s[..2], &[Syntax::STRUCT_ITEM.code(), Syntax::STRUCT_KW.code()]);
    parse("struct MyStruct: Parent {
                    foo: Foo,
                    bar: Bar,
                    fn test(self) -> FooBar {
                        self.foo + self.bar
                    }
                }
                ", Rule::StructItem);
    parse("struct X { a: root::a::b::c }", Rule::StructItem);
    parse("struct Generic<A,B,C> {}", Rule::StructItem);
    parse("struct Y { value: S<int,int,int> }", Rule::StructItem);
}

#[test]
fn attribs() {
    let s = shape(&parse("@first @second() @third(a=3,b=4, yeah)", Rule::CompilerAttribList));
    assert_eq!(s[0], Syntax::COMPILER_ATTRIB_LIST.code());
    assert_eq!(count(&s, Syntax::COMPILER_ATTRIB), 3);
}

#[test]
fn numbers() {
    parse("10.10", Rule::Expr);
    parse("1_000_000", Rule::Expr);
}

#[test]
fn lua() {
    parse("lua {}", Rule::LuaBlockExpr);
    parse("lua { x = { [1] = 1, 2, 3, a=1,b=3, [3]=1 }; }", Rule::LuaBlockExpr);
    parse("lua { function func(a,b,c) a = 1; b = 2; end }", Rule::LuaBlockExpr);
    parse("lua { function test.func(a,b,c) a = 1; b = 2; end }", Rule::LuaBlockExpr);
    parse("lua { function test:func(a,b,c) a = 1; b = 2; end }", Rule::LuaBlockExpr);
    parse("lua { local string = [[ hello there ]]; }", Rule::LuaBlockExpr);
    parse("lua { call(1)[1.5](2)[2.5](3); }", Rule::LuaBlockExpr);
    parse("lua { x = vec2.x.y().y; }", Rule::LuaBlockExpr);
    parse("lua { x.y = 1; }", Rule::LuaBlockExpr);
    parse("lua { print('1'); }", Rule::LuaBlockExpr);
    parse("lua { x.y()().x.x().y[1][2](),x = 1,2; }", Rule::LuaBlockExpr);
    parse("lua { return 1,2,3; }", Rule::LuaBlockExpr);
    parse("lua { #return 1,2,3; }", Rule::LuaBlockExpr);
    parse("lua { break; }", Rule::LuaBlockExpr);
    parse("lua { local a,b,c = 1, 'string', nil; }", Rule::LuaBlockExpr);
    parse("lua { a,b = 1,2; }", Rule::LuaBlockExpr);
    parse("lua { while true do print(); break; end  }", Rule::LuaBlockExpr);
    parse("lua { repeat print(); until false }", Rule::LuaBlockExpr);
    parse("lua { print(...); }", Rule::LuaBlockExpr);
    parse("lua {
                if true then
                    yan();
                elseif false then
                    yay();
                else
                    nay();
                end
            }", Rule::LuaBlockExpr);
    parse("lua {
                if true then
                    yan();
                elseif false then
                    yay();
                end
            }", Rule::LuaBlockExpr);
    parse("lua {
                if true then
                    yan();
                end
            }", Rule::LuaBlockExpr);
    parse("lua {
                for i=1,2,3 do end
            }", Rule::LuaBlockExpr);
    parse("lua {
                for i = 1,10 do end
            }", Rule::LuaBlockExpr);
    parse("lua {
                for a,b,c,d in {} do end
            }", Rule::LuaBlockExpr);
    parse("lua {
                local x = function() end;
            }", Rule::LuaBlockExpr);
    parse("lua {
                local a = 1;
                local b = 2;
                #output = b;
                print(value[#output]);
            }", Rule::LuaBlockExpr);
    parse("lua { local x = 1 ^ 2 ^ 3; }", Rule::LuaBlockExpr);
}
