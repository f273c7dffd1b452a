//! Tests for the type, parameter and definition parsers.

use tlgen::errors::ParamParseError;
use tlgen::errors::ParseError;
use tlgen::tl::Category;
use tlgen::tl::Definition;
use tlgen::tl::Parameter;
use tlgen::tl::Type;
use tlgen::utils::infer_id;

#[test]
fn check_empty_simple() {
    assert_eq!(Type::from_str(""), Err(ParamParseError::Empty));
}

#[test]
fn check_simple() {
    assert_eq!(
        Type::from_str("foo"),
        Ok(Type {
            name: "foo".into(),
            bare: true,
            generic_ref: false,
            generic_arg: None,
        })
    );
}

#[test]
fn check_empty() {
    assert_eq!(Type::from_str(""), Err(ParamParseError::Empty));
}

#[test]
fn check_bare() {
    assert!(match Type::from_str("foo") {
        Ok(Type { bare: true, .. }) => true,
        _ => false,
    });
    assert!(match Type::from_str("Foo") {
        Ok(Type { bare: false, .. }) => true,
        _ => false,
    });
}

#[test]
fn check_generic_arg() {
    assert!(match Type::from_str("foo") {
        Ok(Type {
            generic_arg: None, ..
        }) => true,
        _ => false,
    });
    assert!(match Type::from_str("foo<bar>") {
        Ok(Type {
            generic_arg: Some(x),
            ..
        }) => *x == Type::from_str("bar").unwrap(),
        _ => false,
    });
    assert!(match Type::from_str("foo<bar>") {
        Ok(Type {
            generic_arg: Some(x),
            ..
        }) => *x == Type::from_str("bar").unwrap(),
        _ => false,
    });
    assert!(match Type::from_str("foo<bar<baz>>") {
        Ok(Type {
            generic_arg: Some(x),
            ..
        }) => *x == Type::from_str("bar<baz>").unwrap(),
        _ => false,
    });
}

#[test]
fn parse_empty_param() {
    assert_eq!(Parameter::from_str(":noname"), Err(ParamParseError::Empty));
    assert_eq!(Parameter::from_str("notype:"), Err(ParamParseError::Empty));
    assert_eq!(Parameter::from_str(":"), Err(ParamParseError::Empty));
}

#[test]
fn parse_unknown_param() {
    assert_eq!(
        Parameter::from_str(""),
        Err(ParamParseError::NotImplemented)
    );
    assert_eq!(
        Parameter::from_str("no colon"),
        Err(ParamParseError::NotImplemented)
    );
    assert_eq!(
        Parameter::from_str("colonless"),
        Err(ParamParseError::NotImplemented)
    );
}

#[test]
fn parse_bad_generics() {
    assert_eq!(
        Parameter::from_str("foo:<bar"),
        Err(ParamParseError::InvalidGeneric)
    );
    assert_eq!(
        Parameter::from_str("foo:bar<"),
        Err(ParamParseError::InvalidGeneric)
    );
}

#[test]
fn parse_type_def_param() {
    assert_eq!(
        Parameter::from_str("{a:Type}"),
        Err(ParamParseError::TypeDef { name: "a".into() })
    );
}

#[test]
fn parse_unknown_def_param() {
    assert_eq!(
        Parameter::from_str("{a:foo}"),
        Err(ParamParseError::MissingDef)
    );
}

#[test]
fn parse_valid_param() {
    assert_eq!(
        Parameter::from_str("foo:!bar"),
        Ok(Parameter {
            name: "foo".into(),
            ty: Type {
                name: "bar".into(),
                bare: true,
                generic_ref: true,
                generic_arg: None,
            },
            description: String::new(),
        })
    );
    assert_eq!(
        Parameter::from_str("foo:bar<baz>"),
        Ok(Parameter {
            name: "foo".into(),
            ty: Type {
                name: "bar".into(),
                bare: true,
                generic_ref: false,
                generic_arg: Some(Box::new(Type::from_str("baz").unwrap())),
            },
            description: String::new(),
        })
    );
}

#[test]
fn parse_empty_def() {
    assert_eq!(Definition::from_str(""), Err(ParseError::Empty));
}

#[test]
fn parse_no_name() {
    assert_eq!(Definition::from_str(" = foo"), Err(ParseError::MissingName));
}

#[test]
fn parse_no_type() {
    assert_eq!(Definition::from_str("foo"), Err(ParseError::MissingType));
    assert_eq!(Definition::from_str("foo = "), Err(ParseError::MissingType));
}

#[test]
fn parse_unimplemented() {
    assert_eq!(
        Definition::from_str("int ? = Int"),
        Err(ParseError::NotImplemented)
    );
}

#[test]
fn parse_valid_definition() {
    let def = Definition::from_str("a=d").unwrap();
    assert_eq!(def.name, "a");
    assert_eq!(def.params.len(), 0);
    assert_eq!(
        def.ty,
        Type {
            name: "d".into(),
            bare: true,
            generic_ref: false,
            generic_arg: None,
        }
    );

    let def = Definition::from_str("a=d<e>").unwrap();
    assert_eq!(def.name, "a");
    assert_eq!(def.params.len(), 0);
    assert_eq!(
        def.ty,
        Type {
            name: "d".into(),
            bare: true,
            generic_ref: false,
            generic_arg: Some(Box::new(Type::from_str("e").unwrap())),
        }
    );

    let def = Definition::from_str("a b:c = d").unwrap();
    assert_eq!(def.name, "a");
    assert_eq!(def.params.len(), 1);
    assert_eq!(
        def.ty,
        Type {
            name: "d".into(),
            bare: true,
            generic_ref: false,
            generic_arg: None,
        }
    );
}

#[test]
fn parse_multiline_definition() {
    let def = "
            first lol:param
              = t;
            ";

    assert_eq!(Definition::from_str(def).unwrap().name, "first");

    let def = "
            second
              lol:String
            = t;
            ";

    assert_eq!(Definition::from_str(def).unwrap().name, "second");

    let def = "
            third

              lol:String

            =
                     t;
            ";

    assert_eq!(Definition::from_str(def).unwrap().name, "third");
}

#[test]
fn parse_complete() {
    let def = "
            //@description This is a test description
            name pname:Vector<X> = Type";
    assert_eq!(
        Definition::from_str(def),
        Ok(Definition {
            name: "name".into(),
            description: "This is a test description".into(),
            params: vec![Parameter {
                name: "pname".into(),
                ty: Type {
                    name: "Vector".into(),
                    bare: false,
                    generic_ref: false,
                    generic_arg: Some(Box::new(Type {
                        name: "X".into(),
                        bare: false,
                        generic_ref: false,
                        generic_arg: None,
                    })),
                },
                description: String::new(),
            },],
            ty: Type {
                name: "Type".into(),
                bare: false,
                generic_ref: false,
                generic_arg: None,
            },
            category: Category::Types,
            id: infer_id("name pname:Vector<X> = Type"),
        })
    );
}

#[test]
fn test_to_string() {
    let def = "name pname:Vector<X> = Type";
    assert_eq!(Definition::from_str(def).unwrap().to_string(), def);
}

#[test]
fn parse_explicit_id() {
    let def = Definition::from_str("first#3e2 = t").unwrap();
    assert_eq!(def.name, "first");
    assert_eq!(def.id, 0x3e2);
}

#[test]
fn parse_claims_param_descriptions() {
    let def = Definition::from_str(
        "//@description A test @pname What the parameter means\nname pname:string = Ok",
    )
    .unwrap();
    assert_eq!(def.description, "A test");
    assert_eq!(def.params[0].description, "What the parameter means");
}

#[test]
fn render_parse_round_trip() {
    let d1 = Definition::from_str("userEmpty id:int32 rest:Vector<X> = User").unwrap();
    let d2 = Definition::from_str(&d1.to_string()).unwrap();
    assert_eq!(d1, d2);
    assert_eq!(d2.to_string(), d1.to_string());
}
