use noterm::attributes::{Attribute, AttributeSet};

#[test]
fn attribute_codes_and_bits() {
    assert_eq!(Attribute::Striked.code(), 9);
    assert_eq!(Attribute::NotBlinking.code(), 25);
    assert_eq!(Attribute::Reset.bits(), 0);
    assert_eq!(Attribute::Bold.bits(), 1);
    assert_eq!(Attribute::Italic.bits(), 4);
    assert_eq!(Attribute::NotReversed.bits(), 1 << 12);
    assert_eq!(Attribute::NotBlinking.bits(), 1 << 13);
}

#[test]
fn attribute_set_operations() {
    let mut s = AttributeSet::new();
    assert!(s.is_empty());
    s.insert(Attribute::Bold);
    s.insert(Attribute::Underlined);
    assert!(s.contains(&Attribute::Bold));
    assert!(!s.contains(&Attribute::Italic));
    assert!(!s.contains(&Attribute::Reset));
    s.remove(Attribute::Bold);
    assert!(!s.contains(&Attribute::Bold));
    let other = AttributeSet::from(Attribute::Italic);
    s.extend(other);
    assert_eq!(s.iter(), vec![Attribute::Italic, Attribute::Underlined]);
    assert_eq!(s.intersection(&other).iter(), vec![Attribute::Italic]);
    assert_eq!(s.union(&AttributeSet::from(Attribute::Bold)).iter().len(), 3);
    assert_eq!(s.difference(&other).iter(), vec![Attribute::Underlined]);
    s.reset();
    assert!(s.is_empty());
}
