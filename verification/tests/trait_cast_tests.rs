use std::any::Any;

use trait_cast::cast::{any_to_trait, Erased};
use trait_cast::ident::TypeIdent;
use trait_cast::ledger::Ledger;
use trait_cast::registry::Registry;

/// The payload a host program would register: a downcast operation that
/// recovers the concrete type from an erased reference and, here, invokes
/// one capability method on it.
type Caster = fn(&dyn Any) -> Option<String>;

struct Circle {
    radius: u64,
}

impl Circle {
    fn draw(&self) -> String {
        format!("circle r={}", self.radius)
    }

    fn serialize(&self) -> String {
        format!("circle[{}]", self.radius)
    }
}

struct Square {
    side: u64,
}

impl Square {
    fn draw(&self) -> String {
        format!("square s={}", self.side)
    }
}

fn circle_ident() -> TypeIdent {
    TypeIdent { code: 1 }
}

fn square_ident() -> TypeIdent {
    TypeIdent { code: 2 }
}

fn drawable_ident() -> TypeIdent {
    TypeIdent { code: 10 }
}

fn serializable_ident() -> TypeIdent {
    TypeIdent { code: 11 }
}

fn printable_ident() -> TypeIdent {
    TypeIdent { code: 12 }
}

fn circle_as_drawable(r: &dyn Any) -> Option<String> {
    r.downcast_ref::<Circle>().map(|c| c.draw())
}

fn circle_as_serializable(r: &dyn Any) -> Option<String> {
    r.downcast_ref::<Circle>().map(|c| c.serialize())
}

fn square_as_drawable(r: &dyn Any) -> Option<String> {
    r.downcast_ref::<Square>().map(|s| s.draw())
}

#[test]
fn registered_pair_is_present() {
    let mut ledger: Ledger<Caster> = Ledger::new();
    ledger.register(circle_ident(), drawable_ident(), circle_as_drawable);
    let reg = Registry::build(ledger).expect("no colliding registrations");

    let erased = Erased::erase(circle_ident(), Circle { radius: 3 });
    let caster = *any_to_trait(&reg, &erased, drawable_ident()).expect("pair was registered");
    let concrete = erased
        .recover(erased.type_ident())
        .expect("identity matches");
    let through_registry = caster(concrete).expect("caster was built for this type");
    assert_eq!(through_registry, "circle r=3");
    assert_eq!(through_registry, Circle { radius: 3 }.draw());
}

#[test]
fn unregistered_type_is_absent() {
    let mut ledger: Ledger<Caster> = Ledger::new();
    ledger.register(circle_ident(), drawable_ident(), circle_as_drawable);
    let reg = Registry::build(ledger).expect("no colliding registrations");

    let erased = Erased::erase(square_ident(), Square { side: 4 });
    assert!(any_to_trait(&reg, &erased, drawable_ident()).is_none());
}

#[test]
fn capabilities_are_discriminated() {
    let mut ledger: Ledger<Caster> = Ledger::new();
    ledger.register(circle_ident(), drawable_ident(), circle_as_drawable);
    ledger.register(circle_ident(), serializable_ident(), circle_as_serializable);
    ledger.register(square_ident(), drawable_ident(), square_as_drawable);
    let reg = Registry::build(ledger).expect("no colliding registrations");

    let circle = Erased::erase(circle_ident(), Circle { radius: 5 });
    let draw = *any_to_trait(&reg, &circle, drawable_ident()).expect("registered");
    let ser = *any_to_trait(&reg, &circle, serializable_ident()).expect("registered");
    let c = circle.recover(circle.type_ident()).expect("identity matches");
    assert_eq!(draw(c), Some(String::from("circle r=5")));
    assert_eq!(ser(c), Some(String::from("circle[5]")));

    let square = Erased::erase(square_ident(), Square { side: 7 });
    assert!(any_to_trait(&reg, &square, serializable_ident()).is_none());
    assert!(any_to_trait(&reg, &circle, printable_ident()).is_none());
}

#[test]
fn duplicate_registration_collides() {
    let mut ledger: Ledger<Caster> = Ledger::new();
    ledger.register(circle_ident(), drawable_ident(), circle_as_drawable);
    ledger.register(square_ident(), drawable_ident(), square_as_drawable);
    ledger.register(circle_ident(), drawable_ident(), circle_as_serializable);
    let err = match Registry::build(ledger) {
        Ok(_) => panic!("colliding registrations must be refused"),
        Err(e) => e,
    };
    assert_eq!(err.key.concrete, circle_ident());
    assert_eq!(err.key.capability, drawable_ident());
}

#[test]
fn registration_order_is_immaterial() {
    let mut first: Ledger<Caster> = Ledger::new();
    first.register(circle_ident(), drawable_ident(), circle_as_drawable);
    first.register(square_ident(), drawable_ident(), square_as_drawable);
    let mut second: Ledger<Caster> = Ledger::new();
    second.register(square_ident(), drawable_ident(), square_as_drawable);
    second.register(circle_ident(), drawable_ident(), circle_as_drawable);

    let reg_a = Registry::build(first).expect("no colliding registrations");
    let reg_b = Registry::build(second).expect("no colliding registrations");

    let circle = Erased::erase(circle_ident(), Circle { radius: 2 });
    let square = Erased::erase(square_ident(), Square { side: 9 });
    let c = circle.recover(circle.type_ident()).expect("identity matches");
    let s = square.recover(square.type_ident()).expect("identity matches");

    let from_a_circle = any_to_trait(&reg_a, &circle, drawable_ident()).expect("registered");
    let from_b_circle = any_to_trait(&reg_b, &circle, drawable_ident()).expect("registered");
    assert_eq!(from_a_circle(c), from_b_circle(c));
    let from_a_square = any_to_trait(&reg_a, &square, drawable_ident()).expect("registered");
    let from_b_square = any_to_trait(&reg_b, &square, drawable_ident()).expect("registered");
    assert_eq!(from_a_square(s), from_b_square(s));
    assert!(any_to_trait(&reg_a, &circle, serializable_ident()).is_none());
    assert!(any_to_trait(&reg_b, &circle, serializable_ident()).is_none());
}

#[test]
fn repeated_queries_agree() {
    let mut ledger: Ledger<Caster> = Ledger::new();
    ledger.register(circle_ident(), drawable_ident(), circle_as_drawable);
    let reg = Registry::build(ledger).expect("no colliding registrations");

    let circle = Erased::erase(circle_ident(), Circle { radius: 8 });
    let c = circle.recover(circle.type_ident()).expect("identity matches");
    let first = any_to_trait(&reg, &circle, drawable_ident()).expect("registered");
    let second = any_to_trait(&reg, &circle, drawable_ident()).expect("registered");
    assert_eq!(first(c), second(c));
    assert!(any_to_trait(&reg, &circle, printable_ident()).is_none());
    assert!(any_to_trait(&reg, &circle, printable_ident()).is_none());
}

#[test]
fn empty_ledger_builds_empty_registry() {
    let ledger: Ledger<Caster> = Ledger::new();
    let reg = Registry::build(ledger).expect("nothing can collide");
    let circle = Erased::erase(circle_ident(), Circle { radius: 1 });
    assert!(any_to_trait(&reg, &circle, drawable_ident()).is_none());
}

#[test]
fn ledger_counts_registrations() {
    let mut ledger: Ledger<Caster> = Ledger::new();
    assert_eq!(ledger.len(), 0);
    ledger.register(circle_ident(), drawable_ident(), circle_as_drawable);
    ledger.register(circle_ident(), serializable_ident(), circle_as_serializable);
    assert_eq!(ledger.len(), 2);
}

#[test]
fn recovery_checks_the_identity() {
    let erased = Erased::erase(circle_ident(), Circle { radius: 6 });
    assert_eq!(erased.type_ident(), circle_ident());
    assert!(erased.recover(square_ident()).is_none());
    let back = erased.recover(circle_ident()).expect("identity matches");
    assert_eq!(back.radius, 6);
}

#[test]
fn extreme_codes_stay_distinct() {
    let low = TypeIdent { code: 0 };
    let high = TypeIdent { code: u64::MAX };
    let mut ledger: Ledger<u64> = Ledger::new();
    ledger.register(low, low, 1);
    ledger.register(low, high, 2);
    ledger.register(high, low, 3);
    ledger.register(high, high, 4);
    let reg = Registry::build(ledger).expect("all four keys differ");
    assert_eq!(reg.query(low, low), Some(&1));
    assert_eq!(reg.query(low, high), Some(&2));
    assert_eq!(reg.query(high, low), Some(&3));
    assert_eq!(reg.query(high, high), Some(&4));
    assert_eq!(reg.query(TypeIdent { code: 1 }, low), None);
}
