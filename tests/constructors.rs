use decl_engine::type_system::{t_u16, t_u32, t_u64, t_u8, IntegerBits, TypeInfo};
use decl_engine::typed::Literal;
use decl_engine::untyped::{func_app, u16, u32, u64, u8, var, Expression, TypeArgument};
use decl_engine::type_system::TypeId;

#[test]
fn type_constructors_give_widths() {
    assert!(matches!(t_u8(), TypeInfo::UnsignedInteger(IntegerBits::Eight)));
    assert!(matches!(t_u16(), TypeInfo::UnsignedInteger(IntegerBits::Sixteen)));
    assert!(matches!(t_u32(), TypeInfo::UnsignedInteger(IntegerBits::ThirtyTwo)));
    assert!(matches!(t_u64(), TypeInfo::UnsignedInteger(IntegerBits::SixtyFour)));
}

#[test]
fn literal_constructors_keep_values() {
    assert!(matches!(u8(7), Expression::Literal { value: Literal::U8(7) }));
    assert!(matches!(u16(300), Expression::Literal { value: Literal::U16(300) }));
    assert!(matches!(u32(70000), Expression::Literal { value: Literal::U32(70000) }));
    assert!(matches!(u64(1 << 40), Expression::Literal { value: Literal::U64(v) } if v == 1 << 40));
}

#[test]
fn var_and_func_app_copy_their_inputs() {
    match var("x") {
        Expression::Variable { name } => assert_eq!(name, "x"),
        _ => panic!("expected a variable"),
    }
    let targs = [TypeArgument { type_id: TypeId { index: 3 } }];
    let args = [u8(1), var("y")];
    match func_app("f", &targs, &args) {
        Expression::FunctionApplication { name, type_arguments, arguments } => {
            assert_eq!(name, "f");
            assert_eq!(type_arguments, vec![TypeArgument { type_id: TypeId { index: 3 } }]);
            assert_eq!(arguments.len(), 2);
            assert!(matches!(arguments[0], Expression::Literal { value: Literal::U8(1) }));
            assert!(matches!(&arguments[1], Expression::Variable { name } if name == "y"));
        }
        _ => panic!("expected an application"),
    }
}
