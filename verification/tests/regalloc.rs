use drcc::lir::codegen::regalloc::rig::Rig;
use drcc::lir::codegen::regalloc::GeneralReg;

#[test]
fn test_rig_base() {
    let func_cxs = Vec::new();
    let rig = Rig::base(&func_cxs);
    for node in rig.nodes.iter() {
        println!("{:?}: {:?}", node.reg, node.neighbors);
    }
}

#[test]
fn rig_base_is_complete() {
    let func_cxs = Vec::new();
    let rig = Rig::base(&func_cxs);
    assert_eq!(rig.nodes.len(), 24);
    for node in rig.nodes.iter() {
        assert_eq!(node.neighbors.len(), 23);
        assert!(!node.neighbors.contains(&node.reg));
        assert!(node.color.is_none());
        assert!(matches!(node.reg, GeneralReg::Phys(_)));
        for other in rig.nodes.iter() {
            if other.reg != node.reg {
                assert!(node.neighbors.contains(&other.reg));
            }
        }
    }
}
