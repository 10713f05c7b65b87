//! Dispatch keys: the 32-bit FNV-1a hash of each lowercased mnemonic and
//! of each type tag.
use vstd::prelude::*;

verus! {

// Constants and control.
pub const OP_PUSH_CONST: u32 = 3362566317;
pub const OP_LABEL: u32 = 4137097213;
pub const OP_JUMP: u32 = 2805947405;
pub const OP_JUMP_IF_TRUE: u32 = 4207249494;
pub const OP_JUMP_IF_FALSE: u32 = 3471442001;
pub const OP_JUMP_IF_NULL: u32 = 238760827;
pub const OP_CALL: u32 = 3018949801;
pub const OP_CALL_DYNAMIC: u32 = 4082794239;
pub const OP_RET: u32 = 821323692;
pub const OP_HALT: u32 = 3904824570;
pub const OP_SLEEP: u32 = 2313861896;

// Unary arithmetic.
pub const OP_U_INC: u32 = 3504395983;
pub const OP_U_DEC: u32 = 4196425563;
pub const OP_I_INC: u32 = 3066074899;
pub const OP_I_DEC: u32 = 2261244279;
pub const OP_F_INC: u32 = 3479561274;
pub const OP_F_DEC: u32 = 2117118482;

// Binary arithmetic.
pub const OP_U_ADD: u32 = 814136636;
pub const OP_U_SUB: u32 = 874937213;
pub const OP_U_MUL: u32 = 629139689;
pub const OP_U_DIV: u32 = 3708006304;
pub const OP_U_MOD: u32 = 163603499;
pub const OP_I_ADD: u32 = 1620772024;
pub const OP_I_SUB: u32 = 660410561;
pub const OP_I_MUL: u32 = 2048868125;
pub const OP_I_DIV: u32 = 2176767804;
pub const OP_I_MOD: u32 = 2383434767;
pub const OP_F_ADD: u32 = 1471602089;
pub const OP_F_SUB: u32 = 2796889488;
pub const OP_F_MUL: u32 = 1429630668;
pub const OP_F_DIV: u32 = 2335815909;
pub const OP_F_MOD: u32 = 1358974598;

// Comparisons.
pub const OP_U_EQ: u32 = 3848242203;
pub const OP_U_NEQ: u32 = 1377440367;
pub const OP_U_LT: u32 = 3729666037;
pub const OP_U_GT: u32 = 3965979726;
pub const OP_U_LTE: u32 = 2232737712;
pub const OP_U_GTE: u32 = 1283401649;
pub const OP_I_EQ: u32 = 3360026535;
pub const OP_I_NEQ: u32 = 3473496443;
pub const OP_I_LT: u32 = 3109892441;
pub const OP_I_GT: u32 = 3075204370;
pub const OP_I_LTE: u32 = 162824564;
pub const OP_I_GTE: u32 = 58341973;
pub const OP_F_EQ: u32 = 3248363596;
pub const OP_F_NEQ: u32 = 371414550;
pub const OP_F_LT: u32 = 3501160714;
pub const OP_F_GT: u32 = 3533288929;
pub const OP_F_LTE: u32 = 4080806333;
pub const OP_F_GTE: u32 = 200851148;

// Booleans.
pub const OP_AND: u32 = 254395046;
pub const OP_OR: u32 = 1563699588;
pub const OP_NOT: u32 = 699505802;

// Strings.
pub const OP_STR_ADD: u32 = 2122984124;
pub const OP_STR_LEN: u32 = 3689876820;
pub const OP_STR_GET: u32 = 2539503519;
pub const OP_STR_SET: u32 = 2349001035;
pub const OP_STR_BYTES: u32 = 3717867548;
pub const OP_STR_UPPER: u32 = 2975764495;
pub const OP_STR_LOWER: u32 = 871400802;
pub const OP_STR_EQ: u32 = 1149816987;
pub const OP_STR_NEQ: u32 = 2686287855;

// Casts, variables and heap.
pub const OP_CAST: u32 = 2854572110;
pub const OP_STORE_VAR: u32 = 533751560;
pub const OP_LOAD_VAR: u32 = 3095714799;
pub const OP_FREE: u32 = 2578706139;
pub const OP_CLONE: u32 = 730356610;

// Input and output.
pub const OP_PRINT: u32 = 372738696;
pub const OP_INPUT: u32 = 4191711099;

// Objects.
pub const OP_NEW: u32 = 681154065;
pub const OP_SET_FIELD: u32 = 2059520392;
pub const OP_LOAD_FIELD: u32 = 1285198278;
pub const OP_CALL_METHOD: u32 = 3397513247;
pub const OP_LOAD_THIS: u32 = 24959186;

// Arrays.
pub const OP_NEW_ARRAY: u32 = 3719752907;
pub const OP_ARRAY_SET: u32 = 1287122249;
pub const OP_ARRAY_GET: u32 = 3467232181;
pub const OP_ARRAY_LEN: u32 = 3246697146;

// Class blocks.
pub const OP_STRUCT: u32 = 2462236192;
pub const OP_CLASS: u32 = 2872970239;
pub const OP_FIELD: u32 = 1736598119;
pub const OP_METHOD: u32 = 2873489200;
pub const OP_END_CLASS: u32 = 3642054705;

// Type tags of push_const, cast, print and input.
pub const TAG_UNT: u32 = 1255446122;
pub const TAG_INT: u32 = 2515107422;
pub const TAG_FLOAT: u32 = 2797886853;
pub const TAG_STR: u32 = 3259748752;
pub const TAG_LAMBDA: u32 = 2131063274;
pub const TAG_CHAR: u32 = 2823553821;
pub const TAG_REF: u32 = 1123320834;

} // verus!
