//! Standard tag numbers used by the session layer.

use vstd::prelude::*;

verus! {

pub const BEGIN_STRING: u32 = 8;

pub const BODY_LENGTH: u32 = 9;

pub const MSG_TYPE: u32 = 35;

pub const SENDER_COMP_ID: u32 = 49;

pub const TARGET_COMP_ID: u32 = 56;

pub const MSG_SEQ_NUM: u32 = 34;

pub const SENDING_TIME: u32 = 52;

pub const CHECK_SUM: u32 = 10;

pub const HEART_BT_INT: u32 = 108;

pub const TEST_REQ_ID: u32 = 112;

pub const BEGIN_SEQ_NO: u32 = 7;

pub const END_SEQ_NO: u32 = 16;

pub const RESET_SEQ_NUM_FLAG: u32 = 141;

pub const GAP_FILL_FLAG: u32 = 123;

pub const NEW_SEQ_NO: u32 = 36;

pub const POSS_DUP_FLAG: u32 = 43;

pub const ENCRYPT_METHOD: u32 = 98;

pub const TEXT: u32 = 58;

pub const DEFAULT_APPL_VER_ID: u32 = 1137;

pub const CL_ORD_ID: u32 = 11;

pub const SYMBOL: u32 = 55;

pub const SIDE: u32 = 54;

pub const ORDER_QTY: u32 = 38;

pub const ORD_STATUS: u32 = 39;

pub const EXEC_TYPE: u32 = 150;

} // verus!
