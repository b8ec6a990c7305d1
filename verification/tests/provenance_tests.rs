use canary::provenance::{AliasId, AliasState, PointerConstraint};
use indexmap::IndexSet;

fn may(ids: &[u32]) -> AliasState {
    AliasState::MayAlias(ids.iter().map(|&i| AliasId(i)).collect())
}

fn constrained(cs: &[PointerConstraint]) -> AliasState {
    AliasState::Constrained(cs.iter().copied().collect())
}

fn ids(s: &AliasState) -> Vec<u32> {
    match s {
        AliasState::MayAlias(m) => m.iter().map(|a| a.0).collect(),
        other => panic!("expected a may-alias set, got {:?}", other),
    }
}

#[test]
fn top_yields_and_bottom_absorbs() {
    assert!(matches!(AliasState::Top.merge(AliasState::Unique(AliasId(1))), AliasState::Unique(AliasId(1))));
    assert!(matches!(AliasState::Unique(AliasId(1)).merge(AliasState::Top), AliasState::Unique(AliasId(1))));
    assert!(matches!(AliasState::Top.merge(AliasState::Bottom), AliasState::Bottom));
    assert!(matches!(AliasState::Bottom.merge(may(&[1])), AliasState::Bottom));
    assert!(matches!(constrained(&[PointerConstraint::InHeap]).merge(AliasState::Bottom), AliasState::Bottom));
}

#[test]
fn alias_classes_accumulate() {
    assert!(matches!(AliasState::Unique(AliasId(1)).merge(AliasState::Unique(AliasId(1))), AliasState::Unique(AliasId(1))));
    assert_eq!(ids(&AliasState::Unique(AliasId(1)).merge(AliasState::Unique(AliasId(2)))), vec![1, 2]);
    assert_eq!(ids(&may(&[1, 2]).merge(AliasState::Unique(AliasId(3)))), vec![1, 2, 3]);
    assert_eq!(ids(&AliasState::Unique(AliasId(2)).merge(may(&[1, 2]))), vec![1, 2]);
    assert_eq!(ids(&may(&[1, 2]).merge(may(&[2, 3]))), vec![1, 2, 3]);
    assert_eq!(ids(&may(&[1, 2]).merge(may(&[2, 1]))), vec![1, 2]);
}

#[test]
fn constraints_intersect() {
    let merged = constrained(&[PointerConstraint::InHeap, PointerConstraint::Aligned(8)])
        .merge(constrained(&[PointerConstraint::VtableLike, PointerConstraint::Aligned(8)]));
    match merged {
        AliasState::Constrained(c) => {
            let expected: IndexSet<PointerConstraint> = [PointerConstraint::Aligned(8)].into_iter().collect();
            assert_eq!(c, expected);
        },
        other => panic!("expected constraints, got {:?}", other),
    }
    assert!(matches!(
        constrained(&[PointerConstraint::InHeap]).merge(constrained(&[PointerConstraint::InRdata])),
        AliasState::Top
    ));
    assert!(matches!(AliasState::Unique(AliasId(4)).merge(constrained(&[PointerConstraint::InHeap])), AliasState::Top));
}
