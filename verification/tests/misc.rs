use pointers::boks::Boks;
use pointers::lifetimes_limits::Foo;
use pointers::simplejson;
use pointers::subtyping::assign;
use pointers::subtyping::demo;
use pointers::subtyping::foo;

#[test]
fn test2() {
    //let mut hello: &'static str = "hello";
    {
        //let world = String::from("world");
        //assign(&mut hello, &world); doesn't compile
    }
    //println!("{hello}"); // use after free
}

#[test]
fn assign_overwrites_through_borrow() {
    let mut value = 1;
    assign(&mut value, 7);
    assert_eq!(value, 7);
}

#[test]
fn foo_shortens_lifetime() {
    let x = 3u32;
    assert_eq!(*foo(&x), 3);
}

#[test]
fn demo_calls_its_function() {
    let seen = std::cell::Cell::new(0usize);
    demo("hello", |s| seen.set(s.len()));
    assert_eq!(seen.get(), 5);
}

#[test]
fn boks_holds_and_updates_value() {
    let mut b = Boks::new(42);
    assert_eq!(*b.deref(), 42);
    *b.deref_mut() = 43;
    assert_eq!(*b.deref(), 43);
}

#[test]
fn foo_struct_share_patterns() {
    let mut foo_value = Foo;
    {
        let loan = foo_value.mutate_and_share();
        let _ = loan;
    }
    foo_value.only_share().share();
}

#[test]
fn simplejson_error_messages() {
    let custom = simplejson::Error::custom("boom".to_string());
    assert_eq!(custom.message(), "boom");
    assert_eq!(simplejson::Error::TrailingCharacters.message(), "trailing characters");
    assert_eq!(simplejson::Error::Eof.message(), "EOF");
    assert_eq!(simplejson::Error::ExpectedMapEnd.message(), "EOF");
}
