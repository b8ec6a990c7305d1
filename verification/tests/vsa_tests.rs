use canary::vsa::{eval_binop, infer_call_target, PtrBase, SmallValues, ValueOp, ValueSet};

fn set(items: Vec<i64>) -> ValueSet {
    ValueSet::Values(SmallValues::from_vec(items))
}

#[test]
fn vsa_constant_propagation() {
    // r0 holds 1; r0 + 2 evaluates to 3.
    let result = eval_binop(ValueOp::Add, ValueSet::Const(1), ValueSet::Const(2));
    assert_eq!(result, ValueSet::Const(3));
}

#[test]
fn vsa_phi_join() {
    let a = ValueSet::Const(1);
    let b = ValueSet::Const(2);
    assert_eq!(a.join(b), set(vec![1, 2]));
}

#[test]
fn vsa_loop_widening() {
    let a = ValueSet::Const(0);
    let b = ValueSet::Const(1);
    let c = a.join(b);
    assert_eq!(c.widen(ValueSet::Const(2)), ValueSet::Top);
}

#[test]
fn vsa_stack_pointer() {
    // rbp is the frame base; rbp - 8 is eight bytes below it.
    let rbp = ValueSet::PtrOffset { base: PtrBase::StackFrame, offset: 0 };
    let result = eval_binop(ValueOp::Sub, rbp, ValueSet::Const(8));
    assert_eq!(result, ValueSet::PtrOffset { base: PtrBase::StackFrame, offset: -8 });
}

#[test]
fn vsa_range_add() {
    let r1 = ValueSet::Range { lo: 1, hi: 5 };
    let r2 = ValueSet::Range { lo: 2, hi: 4 };
    assert_eq!(eval_binop(ValueOp::Add, r1, r2), ValueSet::Range { lo: 3, hi: 9 });
}

#[test]
fn vsa_const_branch_elim() {
    let a = ValueSet::Const(1);
    let b = ValueSet::Const(1);
    assert_eq!(a.join(b), ValueSet::Const(1));
}

#[test]
fn join_bottom_is_identity() {
    assert_eq!(ValueSet::Bottom.join(ValueSet::Const(7)), ValueSet::Const(7));
    assert_eq!(ValueSet::Range { lo: 1, hi: 2 }.join(ValueSet::Bottom), ValueSet::Range { lo: 1, hi: 2 });
    assert_eq!(ValueSet::Bottom.join(ValueSet::Top), ValueSet::Top);
}

#[test]
fn join_top_absorbs() {
    assert_eq!(ValueSet::Top.join(ValueSet::Const(3)), ValueSet::Top);
    assert_eq!(set(vec![1, 2]).join(ValueSet::Top), ValueSet::Top);
}

#[test]
fn join_const_orders_pair() {
    assert_eq!(ValueSet::Const(9).join(ValueSet::Const(-4)), set(vec![-4, 9]));
}

#[test]
fn join_const_into_range_and_ranges() {
    assert_eq!(
        ValueSet::Const(-3).join(ValueSet::Range { lo: 0, hi: 10 }),
        ValueSet::Range { lo: -3, hi: 10 }
    );
    assert_eq!(
        ValueSet::Range { lo: 0, hi: 10 }.join(ValueSet::Const(12)),
        ValueSet::Range { lo: 0, hi: 12 }
    );
    assert_eq!(
        ValueSet::Range { lo: 0, hi: 4 }.join(ValueSet::Range { lo: 2, hi: 8 }),
        ValueSet::Range { lo: 0, hi: 8 }
    );
}

#[test]
fn join_set_with_const_sorts_and_caps() {
    assert_eq!(set(vec![1, 5]).join(ValueSet::Const(3)), set(vec![1, 3, 5]));
    assert_eq!(set(vec![1, 5]).join(ValueSet::Const(5)), set(vec![1, 5]));
    assert_eq!(
        set(vec![1, 2, 3, 4]).join(ValueSet::Const(0)),
        ValueSet::Range { lo: 0, hi: 4 }
    );
    assert_eq!(ValueSet::Const(2).join(set(vec![1, 3])), set(vec![1, 2, 3]));
}

#[test]
fn join_sets_merge_without_duplicates() {
    assert_eq!(set(vec![1, 3]).join(set(vec![3, 2])), set(vec![1, 2, 3]));
    assert_eq!(
        set(vec![1, 2, 3]).join(set(vec![4, 5])),
        ValueSet::Range { lo: 1, hi: 5 }
    );
}

#[test]
fn join_is_commutative_on_examples() {
    let pairs = vec![
        (ValueSet::Const(1), ValueSet::Const(2)),
        (set(vec![1, 4]), ValueSet::Const(2)),
        (set(vec![1, 4]), set(vec![2, 4])),
        (ValueSet::Range { lo: 0, hi: 3 }, ValueSet::Const(7)),
    ];
    for (a, b) in pairs {
        assert_eq!(a.clone().join(b.clone()), b.join(a));
    }
}

#[test]
fn join_pointers() {
    let p = ValueSet::PtrOffset { base: PtrBase::Heap, offset: 8 };
    let q = ValueSet::PtrOffset { base: PtrBase::Heap, offset: 16 };
    assert_eq!(p.clone().join(p.clone()), p);
    assert_eq!(p.join(q), ValueSet::Top);
    assert_eq!(ValueSet::Const(1).join(ValueSet::PtrOffset { base: PtrBase::StackFrame, offset: 0 }), ValueSet::Top);
}

#[test]
fn widen_keeps_stable_value() {
    let r = ValueSet::Range { lo: 0, hi: 10 };
    assert_eq!(r.clone().widen(ValueSet::Const(5)), r);
    assert_eq!(r.widen(ValueSet::Const(11)), ValueSet::Top);
}

#[test]
fn eval_binop_wraps_and_saturates() {
    assert_eq!(
        eval_binop(ValueOp::Add, ValueSet::Const(i64::MAX), ValueSet::Const(1)),
        ValueSet::Const(i64::MIN)
    );
    assert_eq!(
        eval_binop(ValueOp::Add, ValueSet::Range { lo: 1, hi: i64::MAX - 1 }, ValueSet::Const(5)),
        ValueSet::Range { lo: 6, hi: i64::MAX }
    );
    assert_eq!(
        eval_binop(ValueOp::Add, ValueSet::Const(4), ValueSet::PtrOffset { base: PtrBase::ImageBase(0x400000), offset: 16 }),
        ValueSet::PtrOffset { base: PtrBase::ImageBase(0x400000), offset: 20 }
    );
    assert_eq!(eval_binop(ValueOp::Sub, ValueSet::Const(4), ValueSet::Const(1)), ValueSet::Top);
    assert_eq!(eval_binop(ValueOp::Other, ValueSet::Const(4), ValueSet::Const(1)), ValueSet::Top);
}

#[test]
fn infer_call_target_from_values() {
    let t = infer_call_target(0x1000, ValueSet::Const(0x2000)).unwrap();
    assert_eq!(t.call_site, 0x1000);
    assert_eq!(t.targets, vec![0x2000]);

    let t = infer_call_target(0x1004, set(vec![0x3000, 0x4000])).unwrap();
    assert_eq!(t.call_site, 0x1004);
    assert_eq!(t.targets, vec![0x3000, 0x4000]);

    let t = infer_call_target(0x1008, ValueSet::Const(-1)).unwrap();
    assert_eq!(t.targets, vec![u64::MAX]);

    assert!(infer_call_target(0x100c, ValueSet::Range { lo: 0, hi: 4 }).is_none());
    assert!(infer_call_target(0x100c, ValueSet::Top).is_none());
}
