//! Tokens of the language and the lexer that splits source text into them.
use vstd::prelude::*;
use std::ops::Range;
use vstd::string::StringSliceAdditionalSpecFns;

verus! {

/// Every kind of token and node in the language's concrete syntax tree.
#[allow(non_camel_case_types)]
#[derive(Debug, PartialEq, Eq, Clone, Copy, Hash, Structural)]
pub enum Syntax {
    WHITESPACE,
    COMMENT,
    IDENT,
    FLOAT,
    INT,
    STRING,
    SINGLE_STRING,
    BRACKET_STRING,
    WILDCARD,
    L_PAREN,
    R_PAREN,
    L_BRACKET,
    R_BRACKET,
    L_BRACE,
    R_BRACE,
    BAR,
    BAR_EQ,
    TILDE,
    TILDE_EQ,
    EQ,
    EQ2,
    LT,
    GT,
    LESS_EQ,
    GREATER_EQ,
    NOT_EQ,
    COMMA,
    BANG,
    DOT,
    DOT2,
    DOT3,
    PLUS,
    PLUS_EQ,
    MINUS,
    MINUS_EQ,
    SLASH,
    SLASH_EQ,
    SLASH2,
    SLASH2_EQ,
    STAR,
    STAR_EQ,
    PERCENT,
    HASH,
    CARET,
    AT,
    PERCENT_EQ,
    SEMI,
    COLON,
    MARK,
    FAT_ARROW,
    ARROW,
    LET_KW,
    DYN_KW,
    TRUE_KW,
    FALSE_KW,
    SUPER_KW,
    AND_KW,
    OR_KW,
    AS_KW,
    IS_KW,
    NOT_KW,
    IS_NOT_KW,
    NIL_KW,
    RETURN_KW,
    IF_KW,
    ELSE_KW,
    FOR_KW,
    CONTINUE_KW,
    BREAK_KW,
    WHILE_KW,
    LOOP_KW,
    IN_KW,
    STRUCT_KW,
    ENUM_KW,
    IMPL_KW,
    MATCH_KW,
    SELF_KW,
    SELF_TYPE_KW,
    CONST_KW,
    STATIC_KW,
    MOD_KW,
    ROOT_KW,
    LUA_KW,
    USE_KW,
    FN_KW,
    EOF,
    ERROR,
    MODULE,
    FN_ITEM,
    STRUCT_ITEM,
    IMPL_ITEM,
    MOD_ITEM,
    ENUM_ITEM,
    USE_ITEM,
    PATH,
    NAME,
    ARG,
    PARAM_LIST,
    PARAM,
    FN_TYPE_PARAM_LIST,
    FN_TYPE_PARAM,
    RETURN_TYPE,
    FIELD,
    PARENT,
    CLOSURE_PARAM_LIST,
    CLOSURE_PARAM,
    RECORD_FIELD,
    GENERICS,
    GENERIC_ARGUMENTS,
    TYPE_PARAM,
    TYPE_PARAM_BOUND,
    PATH_SEGMENT,
    USE_ROOT_PATH,
    USE_SUPER_PATH,
    USE_SELF_NAME,
    USE_PATH,
    USE_NAME,
    USE_GLOBAL,
    USE_TREE_LIST,
    LET_STMT,
    EXPR_STMT,
    NILABLE_TYPE,
    PAREN_TYPE,
    LIT_TYPE,
    LIT_TYPE_STRING,
    LIT_TYPE_INT,
    LIT_TYPE_FLOAT,
    LIT_TYPE_BOOL,
    ANY_TYPE,
    PATH_TYPE,
    FN_TYPE,
    UNIT_TYPE,
    TUPLE_TYPE,
    SELF_TYPE,
    DYN_TYPE,
    SELF_EXPR,
    RECORD_EXPR,
    UNIT_EXPR,
    TUPLE_EXPR,
    PATH_EXPR,
    LIT_EXPR,
    PAREN_EXPR,
    ASSIGN_EXPR,
    CALL_EXPR,
    INDEX_EXPR,
    RETURN_EXPR,
    IF_EXPR,
    FOR_EXPR,
    WHILE_EXPR,
    LOOP_EXPR,
    BLOCK_EXPR,
    LUA_CHUNK_EXPR,
    BINARY_EXPR,
    UNARY_EXPR,
    CONTINUE_EXPR,
    BREAK_EXPR,
    CLOSURE_EXPR,
    METHOD_EXPR,
    SAFE_METHOD_EXPR,
    FIELD_EXPR,
    SAFE_FIELD_EXPR,
    AS_EXPR,
    IS_EXPR,
    IS_NOT_EXPR,
    NAME_PAT,
    PATH_PAT,
    LIT_PAT,
    WILDCARD_PAT,
    COMPILER_ATTRIB_LIST,
    COMPILER_ATTRIB,
    COMPILER_ATTRIB_ITEM,
    LUA_LIT_EXPR,
    LUA_INDEX_EXPR,
    LUA_CALL_EXPR,
    LUA_UNARY_EXPR,
    LUA_BINARY_EXPR,
    LUA_MULTI_EXPR,
    LUA_TABLE_EXPR,
    LUA_FIELD_ACCESS_EXPR,
    LUA_FUNCTION_EXPR,
    LUA_ELEM_ASSIGN,
    LUA_ELEM_INDEX_ASSIGN,
    LUA_ELEM_EXPR,
    LUA_ARG_LIST,
    LUA_ARG,
    LUA_PARAM_LIST,
    LUA_PARAM,
    LUA_NAME,
    LUA_HASH_NAME,
    LUA_NUMERIC_FOR,
    LUA_GENERIC_FOR,
    LUA_FUNCTION_STMT,
    LUA_CONTINUE_STMT,
    LUA_BREAK_STMT,
    LUA_RETURN_STMT,
    LUA_HASH_RETURN_STMT,
    LUA_BLOCK_STMT,
    LUA_STMT_EXPR,
    LUA_WHILE_STMT,
    LUA_IF_STMT,
    LUA_FOR_STMT,
    LUA_LOCAL_STMT,
    LUA_REPEAT_STMT,
    LUA_ELSE,
    LUA_ELSEIF,
}

impl Syntax {
    pub const WHITESPACE_FIRST: Syntax = Syntax::WHITESPACE;
    pub const WHITESPACE_LAST: Syntax = Syntax::COMMENT;
    pub const SYMBOL_FIRST: Syntax = Syntax::L_PAREN;
    pub const SYMBOL_LAST: Syntax = Syntax::ARROW;
    pub const KEYWORD_FIRST: Syntax = Syntax::LET_KW;
    pub const KEYWORD_LAST: Syntax = Syntax::FN_KW;
    pub const ITEM_FIRST: Syntax = Syntax::FN_ITEM;
    pub const ITEM_LAST: Syntax = Syntax::USE_ITEM;
    pub const USE_FIRST: Syntax = Syntax::USE_ROOT_PATH;
    pub const USE_LAST: Syntax = Syntax::USE_TREE_LIST;
    pub const STMT_FIRST: Syntax = Syntax::LET_STMT;
    pub const STMT_LAST: Syntax = Syntax::EXPR_STMT;
    pub const TYPE_EXPR_FIRST: Syntax = Syntax::NILABLE_TYPE;
    pub const TYPE_EXPR_LAST: Syntax = Syntax::DYN_TYPE;
    pub const EXPR_FIRST: Syntax = Syntax::SELF_EXPR;
    pub const EXPR_LAST: Syntax = Syntax::IS_NOT_EXPR;
    pub const PAT_FIRST: Syntax = Syntax::NAME_PAT;
    pub const PAT_LAST: Syntax = Syntax::WILDCARD_PAT;
    pub const LUA_EXPR_FIRST: Syntax = Syntax::LUA_LIT_EXPR;
    pub const LUA_EXPR_LAST: Syntax = Syntax::LUA_FUNCTION_EXPR;
    pub const LUA_ELEM_FIRST: Syntax = Syntax::LUA_ELEM_ASSIGN;
    pub const LUA_ELEM_LAST: Syntax = Syntax::LUA_ELEM_EXPR;
    pub const LUA_STMT_FIRST: Syntax = Syntax::LUA_FUNCTION_STMT;
    pub const LUA_STMT_LAST: Syntax = Syntax::LUA_REPEAT_STMT;

    /// The number of the kind: its position in the declaration.
    pub open spec fn spec_code(self) -> u16 {
        match self {
            Syntax::WHITESPACE => 0,
            Syntax::COMMENT => 1,
            Syntax::IDENT => 2,
            Syntax::FLOAT => 3,
            Syntax::INT => 4,
            Syntax::STRING => 5,
            Syntax::SINGLE_STRING => 6,
            Syntax::BRACKET_STRING => 7,
            Syntax::WILDCARD => 8,
            Syntax::L_PAREN => 9,
            Syntax::R_PAREN => 10,
            Syntax::L_BRACKET => 11,
            Syntax::R_BRACKET => 12,
            Syntax::L_BRACE => 13,
            Syntax::R_BRACE => 14,
            Syntax::BAR => 15,
            Syntax::BAR_EQ => 16,
            Syntax::TILDE => 17,
            Syntax::TILDE_EQ => 18,
            Syntax::EQ => 19,
            Syntax::EQ2 => 20,
            Syntax::LT => 21,
            Syntax::GT => 22,
            Syntax::LESS_EQ => 23,
            Syntax::GREATER_EQ => 24,
            Syntax::NOT_EQ => 25,
            Syntax::COMMA => 26,
            Syntax::BANG => 27,
            Syntax::DOT => 28,
            Syntax::DOT2 => 29,
            Syntax::DOT3 => 30,
            Syntax::PLUS => 31,
            Syntax::PLUS_EQ => 32,
            Syntax::MINUS => 33,
            Syntax::MINUS_EQ => 34,
            Syntax::SLASH => 35,
            Syntax::SLASH_EQ => 36,
            Syntax::SLASH2 => 37,
            Syntax::SLASH2_EQ => 38,
            Syntax::STAR => 39,
            Syntax::STAR_EQ => 40,
            Syntax::PERCENT => 41,
            Syntax::HASH => 42,
            Syntax::CARET => 43,
            Syntax::AT => 44,
            Syntax::PERCENT_EQ => 45,
            Syntax::SEMI => 46,
            Syntax::COLON => 47,
            Syntax::MARK => 48,
            Syntax::FAT_ARROW => 49,
            Syntax::ARROW => 50,
            Syntax::LET_KW => 51,
            Syntax::DYN_KW => 52,
            Syntax::TRUE_KW => 53,
            Syntax::FALSE_KW => 54,
            Syntax::SUPER_KW => 55,
            Syntax::AND_KW => 56,
            Syntax::OR_KW => 57,
            Syntax::AS_KW => 58,
            Syntax::IS_KW => 59,
            Syntax::NOT_KW => 60,
            Syntax::IS_NOT_KW => 61,
            Syntax::NIL_KW => 62,
            Syntax::RETURN_KW => 63,
            Syntax::IF_KW => 64,
            Syntax::ELSE_KW => 65,
            Syntax::FOR_KW => 66,
            Syntax::CONTINUE_KW => 67,
            Syntax::BREAK_KW => 68,
            Syntax::WHILE_KW => 69,
            Syntax::LOOP_KW => 70,
            Syntax::IN_KW => 71,
            Syntax::STRUCT_KW => 72,
            Syntax::ENUM_KW => 73,
            Syntax::IMPL_KW => 74,
            Syntax::MATCH_KW => 75,
            Syntax::SELF_KW => 76,
            Syntax::SELF_TYPE_KW => 77,
            Syntax::CONST_KW => 78,
            Syntax::STATIC_KW => 79,
            Syntax::MOD_KW => 80,
            Syntax::ROOT_KW => 81,
            Syntax::LUA_KW => 82,
            Syntax::USE_KW => 83,
            Syntax::FN_KW => 84,
            Syntax::EOF => 85,
            Syntax::ERROR => 86,
            Syntax::MODULE => 87,
            Syntax::FN_ITEM => 88,
            Syntax::STRUCT_ITEM => 89,
            Syntax::IMPL_ITEM => 90,
            Syntax::MOD_ITEM => 91,
            Syntax::ENUM_ITEM => 92,
            Syntax::USE_ITEM => 93,
            Syntax::PATH => 94,
            Syntax::NAME => 95,
            Syntax::ARG => 96,
            Syntax::PARAM_LIST => 97,
            Syntax::PARAM => 98,
            Syntax::FN_TYPE_PARAM_LIST => 99,
            Syntax::FN_TYPE_PARAM => 100,
            Syntax::RETURN_TYPE => 101,
            Syntax::FIELD => 102,
            Syntax::PARENT => 103,
            Syntax::CLOSURE_PARAM_LIST => 104,
            Syntax::CLOSURE_PARAM => 105,
            Syntax::RECORD_FIELD => 106,
            Syntax::GENERICS => 107,
            Syntax::GENERIC_ARGUMENTS => 108,
            Syntax::TYPE_PARAM => 109,
            Syntax::TYPE_PARAM_BOUND => 110,
            Syntax::PATH_SEGMENT => 111,
            Syntax::USE_ROOT_PATH => 112,
            Syntax::USE_SUPER_PATH => 113,
            Syntax::USE_SELF_NAME => 114,
            Syntax::USE_PATH => 115,
            Syntax::USE_NAME => 116,
            Syntax::USE_GLOBAL => 117,
            Syntax::USE_TREE_LIST => 118,
            Syntax::LET_STMT => 119,
            Syntax::EXPR_STMT => 120,
            Syntax::NILABLE_TYPE => 121,
            Syntax::PAREN_TYPE => 122,
            Syntax::LIT_TYPE => 123,
            Syntax::LIT_TYPE_STRING => 124,
            Syntax::LIT_TYPE_INT => 125,
            Syntax::LIT_TYPE_FLOAT => 126,
            Syntax::LIT_TYPE_BOOL => 127,
            Syntax::ANY_TYPE => 128,
            Syntax::PATH_TYPE => 129,
            Syntax::FN_TYPE => 130,
            Syntax::UNIT_TYPE => 131,
            Syntax::TUPLE_TYPE => 132,
            Syntax::SELF_TYPE => 133,
            Syntax::DYN_TYPE => 134,
            Syntax::SELF_EXPR => 135,
            Syntax::RECORD_EXPR => 136,
            Syntax::UNIT_EXPR => 137,
            Syntax::TUPLE_EXPR => 138,
            Syntax::PATH_EXPR => 139,
            Syntax::LIT_EXPR => 140,
            Syntax::PAREN_EXPR => 141,
            Syntax::ASSIGN_EXPR => 142,
            Syntax::CALL_EXPR => 143,
            Syntax::INDEX_EXPR => 144,
            Syntax::RETURN_EXPR => 145,
            Syntax::IF_EXPR => 146,
            Syntax::FOR_EXPR => 147,
            Syntax::WHILE_EXPR => 148,
            Syntax::LOOP_EXPR => 149,
            Syntax::BLOCK_EXPR => 150,
            Syntax::LUA_CHUNK_EXPR => 151,
            Syntax::BINARY_EXPR => 152,
            Syntax::UNARY_EXPR => 153,
            Syntax::CONTINUE_EXPR => 154,
            Syntax::BREAK_EXPR => 155,
            Syntax::CLOSURE_EXPR => 156,
            Syntax::METHOD_EXPR => 157,
            Syntax::SAFE_METHOD_EXPR => 158,
            Syntax::FIELD_EXPR => 159,
            Syntax::SAFE_FIELD_EXPR => 160,
            Syntax::AS_EXPR => 161,
            Syntax::IS_EXPR => 162,
            Syntax::IS_NOT_EXPR => 163,
            Syntax::NAME_PAT => 164,
            Syntax::PATH_PAT => 165,
            Syntax::LIT_PAT => 166,
            Syntax::WILDCARD_PAT => 167,
            Syntax::COMPILER_ATTRIB_LIST => 168,
            Syntax::COMPILER_ATTRIB => 169,
            Syntax::COMPILER_ATTRIB_ITEM => 170,
            Syntax::LUA_LIT_EXPR => 171,
            Syntax::LUA_INDEX_EXPR => 172,
            Syntax::LUA_CALL_EXPR => 173,
            Syntax::LUA_UNARY_EXPR => 174,
            Syntax::LUA_BINARY_EXPR => 175,
            Syntax::LUA_MULTI_EXPR => 176,
            Syntax::LUA_TABLE_EXPR => 177,
            Syntax::LUA_FIELD_ACCESS_EXPR => 178,
            Syntax::LUA_FUNCTION_EXPR => 179,
            Syntax::LUA_ELEM_ASSIGN => 180,
            Syntax::LUA_ELEM_INDEX_ASSIGN => 181,
            Syntax::LUA_ELEM_EXPR => 182,
            Syntax::LUA_ARG_LIST => 183,
            Syntax::LUA_ARG => 184,
            Syntax::LUA_PARAM_LIST => 185,
            Syntax::LUA_PARAM => 186,
            Syntax::LUA_NAME => 187,
            Syntax::LUA_HASH_NAME => 188,
            Syntax::LUA_NUMERIC_FOR => 189,
            Syntax::LUA_GENERIC_FOR => 190,
            Syntax::LUA_FUNCTION_STMT => 191,
            Syntax::LUA_CONTINUE_STMT => 192,
            Syntax::LUA_BREAK_STMT => 193,
            Syntax::LUA_RETURN_STMT => 194,
            Syntax::LUA_HASH_RETURN_STMT => 195,
            Syntax::LUA_BLOCK_STMT => 196,
            Syntax::LUA_STMT_EXPR => 197,
            Syntax::LUA_WHILE_STMT => 198,
            Syntax::LUA_IF_STMT => 199,
            Syntax::LUA_FOR_STMT => 200,
            Syntax::LUA_LOCAL_STMT => 201,
            Syntax::LUA_REPEAT_STMT => 202,
            Syntax::LUA_ELSE => 203,
            Syntax::LUA_ELSEIF => 204,
        }
    }

    /// The number of the kind: its place in the declaration, counted from 0.
    pub fn code(self) -> (c: u16)
        ensures
            c == self.spec_code(),
    {
        match self {
            Syntax::WHITESPACE => 0,
            Syntax::COMMENT => 1,
            Syntax::IDENT => 2,
            Syntax::FLOAT => 3,
            Syntax::INT => 4,
            Syntax::STRING => 5,
            Syntax::SINGLE_STRING => 6,
            Syntax::BRACKET_STRING => 7,
            Syntax::WILDCARD => 8,
            Syntax::L_PAREN => 9,
            Syntax::R_PAREN => 10,
            Syntax::L_BRACKET => 11,
            Syntax::R_BRACKET => 12,
            Syntax::L_BRACE => 13,
            Syntax::R_BRACE => 14,
            Syntax::BAR => 15,
            Syntax::BAR_EQ => 16,
            Syntax::TILDE => 17,
            Syntax::TILDE_EQ => 18,
            Syntax::EQ => 19,
            Syntax::EQ2 => 20,
            Syntax::LT => 21,
            Syntax::GT => 22,
            Syntax::LESS_EQ => 23,
            Syntax::GREATER_EQ => 24,
            Syntax::NOT_EQ => 25,
            Syntax::COMMA => 26,
            Syntax::BANG => 27,
            Syntax::DOT => 28,
            Syntax::DOT2 => 29,
            Syntax::DOT3 => 30,
            Syntax::PLUS => 31,
            Syntax::PLUS_EQ => 32,
            Syntax::MINUS => 33,
            Syntax::MINUS_EQ => 34,
            Syntax::SLASH => 35,
            Syntax::SLASH_EQ => 36,
            Syntax::SLASH2 => 37,
            Syntax::SLASH2_EQ => 38,
            Syntax::STAR => 39,
            Syntax::STAR_EQ => 40,
            Syntax::PERCENT => 41,
            Syntax::HASH => 42,
            Syntax::CARET => 43,
            Syntax::AT => 44,
            Syntax::PERCENT_EQ => 45,
            Syntax::SEMI => 46,
            Syntax::COLON => 47,
            Syntax::MARK => 48,
            Syntax::FAT_ARROW => 49,
            Syntax::ARROW => 50,
            Syntax::LET_KW => 51,
            Syntax::DYN_KW => 52,
            Syntax::TRUE_KW => 53,
            Syntax::FALSE_KW => 54,
            Syntax::SUPER_KW => 55,
            Syntax::AND_KW => 56,
            Syntax::OR_KW => 57,
            Syntax::AS_KW => 58,
            Syntax::IS_KW => 59,
            Syntax::NOT_KW => 60,
            Syntax::IS_NOT_KW => 61,
            Syntax::NIL_KW => 62,
            Syntax::RETURN_KW => 63,
            Syntax::IF_KW => 64,
            Syntax::ELSE_KW => 65,
            Syntax::FOR_KW => 66,
            Syntax::CONTINUE_KW => 67,
            Syntax::BREAK_KW => 68,
            Syntax::WHILE_KW => 69,
            Syntax::LOOP_KW => 70,
            Syntax::IN_KW => 71,
            Syntax::STRUCT_KW => 72,
            Syntax::ENUM_KW => 73,
            Syntax::IMPL_KW => 74,
            Syntax::MATCH_KW => 75,
            Syntax::SELF_KW => 76,
            Syntax::SELF_TYPE_KW => 77,
            Syntax::CONST_KW => 78,
            Syntax::STATIC_KW => 79,
            Syntax::MOD_KW => 80,
            Syntax::ROOT_KW => 81,
            Syntax::LUA_KW => 82,
            Syntax::USE_KW => 83,
            Syntax::FN_KW => 84,
            Syntax::EOF => 85,
            Syntax::ERROR => 86,
            Syntax::MODULE => 87,
            Syntax::FN_ITEM => 88,
            Syntax::STRUCT_ITEM => 89,
            Syntax::IMPL_ITEM => 90,
            Syntax::MOD_ITEM => 91,
            Syntax::ENUM_ITEM => 92,
            Syntax::USE_ITEM => 93,
            Syntax::PATH => 94,
            Syntax::NAME => 95,
            Syntax::ARG => 96,
            Syntax::PARAM_LIST => 97,
            Syntax::PARAM => 98,
            Syntax::FN_TYPE_PARAM_LIST => 99,
            Syntax::FN_TYPE_PARAM => 100,
            Syntax::RETURN_TYPE => 101,
            Syntax::FIELD => 102,
            Syntax::PARENT => 103,
            Syntax::CLOSURE_PARAM_LIST => 104,
            Syntax::CLOSURE_PARAM => 105,
            Syntax::RECORD_FIELD => 106,
            Syntax::GENERICS => 107,
            Syntax::GENERIC_ARGUMENTS => 108,
            Syntax::TYPE_PARAM => 109,
            Syntax::TYPE_PARAM_BOUND => 110,
            Syntax::PATH_SEGMENT => 111,
            Syntax::USE_ROOT_PATH => 112,
            Syntax::USE_SUPER_PATH => 113,
            Syntax::USE_SELF_NAME => 114,
            Syntax::USE_PATH => 115,
            Syntax::USE_NAME => 116,
            Syntax::USE_GLOBAL => 117,
            Syntax::USE_TREE_LIST => 118,
            Syntax::LET_STMT => 119,
            Syntax::EXPR_STMT => 120,
            Syntax::NILABLE_TYPE => 121,
            Syntax::PAREN_TYPE => 122,
            Syntax::LIT_TYPE => 123,
            Syntax::LIT_TYPE_STRING => 124,
            Syntax::LIT_TYPE_INT => 125,
            Syntax::LIT_TYPE_FLOAT => 126,
            Syntax::LIT_TYPE_BOOL => 127,
            Syntax::ANY_TYPE => 128,
            Syntax::PATH_TYPE => 129,
            Syntax::FN_TYPE => 130,
            Syntax::UNIT_TYPE => 131,
            Syntax::TUPLE_TYPE => 132,
            Syntax::SELF_TYPE => 133,
            Syntax::DYN_TYPE => 134,
            Syntax::SELF_EXPR => 135,
            Syntax::RECORD_EXPR => 136,
            Syntax::UNIT_EXPR => 137,
            Syntax::TUPLE_EXPR => 138,
            Syntax::PATH_EXPR => 139,
            Syntax::LIT_EXPR => 140,
            Syntax::PAREN_EXPR => 141,
            Syntax::ASSIGN_EXPR => 142,
            Syntax::CALL_EXPR => 143,
            Syntax::INDEX_EXPR => 144,
            Syntax::RETURN_EXPR => 145,
            Syntax::IF_EXPR => 146,
            Syntax::FOR_EXPR => 147,
            Syntax::WHILE_EXPR => 148,
            Syntax::LOOP_EXPR => 149,
            Syntax::BLOCK_EXPR => 150,
            Syntax::LUA_CHUNK_EXPR => 151,
            Syntax::BINARY_EXPR => 152,
            Syntax::UNARY_EXPR => 153,
            Syntax::CONTINUE_EXPR => 154,
            Syntax::BREAK_EXPR => 155,
            Syntax::CLOSURE_EXPR => 156,
            Syntax::METHOD_EXPR => 157,
            Syntax::SAFE_METHOD_EXPR => 158,
            Syntax::FIELD_EXPR => 159,
            Syntax::SAFE_FIELD_EXPR => 160,
            Syntax::AS_EXPR => 161,
            Syntax::IS_EXPR => 162,
            Syntax::IS_NOT_EXPR => 163,
            Syntax::NAME_PAT => 164,
            Syntax::PATH_PAT => 165,
            Syntax::LIT_PAT => 166,
            Syntax::WILDCARD_PAT => 167,
            Syntax::COMPILER_ATTRIB_LIST => 168,
            Syntax::COMPILER_ATTRIB => 169,
            Syntax::COMPILER_ATTRIB_ITEM => 170,
            Syntax::LUA_LIT_EXPR => 171,
            Syntax::LUA_INDEX_EXPR => 172,
            Syntax::LUA_CALL_EXPR => 173,
            Syntax::LUA_UNARY_EXPR => 174,
            Syntax::LUA_BINARY_EXPR => 175,
            Syntax::LUA_MULTI_EXPR => 176,
            Syntax::LUA_TABLE_EXPR => 177,
            Syntax::LUA_FIELD_ACCESS_EXPR => 178,
            Syntax::LUA_FUNCTION_EXPR => 179,
            Syntax::LUA_ELEM_ASSIGN => 180,
            Syntax::LUA_ELEM_INDEX_ASSIGN => 181,
            Syntax::LUA_ELEM_EXPR => 182,
            Syntax::LUA_ARG_LIST => 183,
            Syntax::LUA_ARG => 184,
            Syntax::LUA_PARAM_LIST => 185,
            Syntax::LUA_PARAM => 186,
            Syntax::LUA_NAME => 187,
            Syntax::LUA_HASH_NAME => 188,
            Syntax::LUA_NUMERIC_FOR => 189,
            Syntax::LUA_GENERIC_FOR => 190,
            Syntax::LUA_FUNCTION_STMT => 191,
            Syntax::LUA_CONTINUE_STMT => 192,
            Syntax::LUA_BREAK_STMT => 193,
            Syntax::LUA_RETURN_STMT => 194,
            Syntax::LUA_HASH_RETURN_STMT => 195,
            Syntax::LUA_BLOCK_STMT => 196,
            Syntax::LUA_STMT_EXPR => 197,
            Syntax::LUA_WHILE_STMT => 198,
            Syntax::LUA_IF_STMT => 199,
            Syntax::LUA_FOR_STMT => 200,
            Syntax::LUA_LOCAL_STMT => 201,
            Syntax::LUA_REPEAT_STMT => 202,
            Syntax::LUA_ELSE => 203,
            Syntax::LUA_ELSEIF => 204,
        }
    }

    /// What `Display` shows of the kind.
    pub open spec fn spec_text(self) -> Seq<char> {
        match self {
            Syntax::WHITESPACE => "WHITESPACE"@,
            Syntax::COMMENT => "COMMENT"@,
            Syntax::IDENT => "identifier"@,
            Syntax::FLOAT => "float"@,
            Syntax::INT => "int"@,
            Syntax::STRING => "string"@,
            Syntax::SINGLE_STRING => "string"@,
            Syntax::BRACKET_STRING => "string"@,
            Syntax::WILDCARD => "_"@,
            Syntax::L_PAREN => "("@,
            Syntax::R_PAREN => ")"@,
            Syntax::L_BRACKET => "["@,
            Syntax::R_BRACKET => "]"@,
            Syntax::L_BRACE => "{"@,
            Syntax::R_BRACE => "}"@,
            Syntax::BAR => "|"@,
            Syntax::BAR_EQ => "|="@,
            Syntax::TILDE => "~"@,
            Syntax::TILDE_EQ => "~="@,
            Syntax::EQ => "="@,
            Syntax::EQ2 => "=="@,
            Syntax::LT => "<"@,
            Syntax::GT => ">"@,
            Syntax::LESS_EQ => "<="@,
            Syntax::GREATER_EQ => ">="@,
            Syntax::NOT_EQ => "!="@,
            Syntax::COMMA => ","@,
            Syntax::BANG => "!"@,
            Syntax::DOT => "."@,
            Syntax::DOT2 => ".."@,
            Syntax::DOT3 => "..."@,
            Syntax::PLUS => "+"@,
            Syntax::PLUS_EQ => "+="@,
            Syntax::MINUS => "-"@,
            Syntax::MINUS_EQ => "-="@,
            Syntax::SLASH => "/"@,
            Syntax::SLASH_EQ => "/="@,
            Syntax::SLASH2 => "//"@,
            Syntax::SLASH2_EQ => "//="@,
            Syntax::STAR => "*"@,
            Syntax::STAR_EQ => "*="@,
            Syntax::PERCENT => "%"@,
            Syntax::HASH => "#"@,
            Syntax::CARET => "^"@,
            Syntax::AT => "@"@,
            Syntax::PERCENT_EQ => "%="@,
            Syntax::SEMI => ";"@,
            Syntax::COLON => ":"@,
            Syntax::MARK => "?"@,
            Syntax::FAT_ARROW => "=>"@,
            Syntax::ARROW => "->"@,
            Syntax::LET_KW => "let"@,
            Syntax::DYN_KW => "dyn"@,
            Syntax::TRUE_KW => "true"@,
            Syntax::FALSE_KW => "false"@,
            Syntax::SUPER_KW => "super"@,
            Syntax::AND_KW => "and"@,
            Syntax::OR_KW => "or"@,
            Syntax::AS_KW => "as"@,
            Syntax::IS_KW => "is"@,
            Syntax::NOT_KW => "not"@,
            Syntax::IS_NOT_KW => "!is"@,
            Syntax::NIL_KW => "nil"@,
            Syntax::RETURN_KW => "return"@,
            Syntax::IF_KW => "if"@,
            Syntax::ELSE_KW => "else"@,
            Syntax::FOR_KW => "for"@,
            Syntax::CONTINUE_KW => "continue"@,
            Syntax::BREAK_KW => "break"@,
            Syntax::WHILE_KW => "while"@,
            Syntax::LOOP_KW => "loop"@,
            Syntax::IN_KW => "in"@,
            Syntax::STRUCT_KW => "struct"@,
            Syntax::ENUM_KW => "enum"@,
            Syntax::IMPL_KW => "impl"@,
            Syntax::MATCH_KW => "match"@,
            Syntax::SELF_KW => "self"@,
            Syntax::SELF_TYPE_KW => "Self"@,
            Syntax::CONST_KW => "const"@,
            Syntax::STATIC_KW => "static"@,
            Syntax::MOD_KW => "mod"@,
            Syntax::ROOT_KW => "root"@,
            Syntax::LUA_KW => "lua"@,
            Syntax::USE_KW => "use"@,
            Syntax::FN_KW => "fn"@,
            Syntax::EOF => "EOF"@,
            Syntax::ERROR => "ERROR"@,
            Syntax::MODULE => "MODULE"@,
            Syntax::FN_ITEM => "FN_ITEM"@,
            Syntax::STRUCT_ITEM => "STRUCT_ITEM"@,
            Syntax::IMPL_ITEM => "IMPL_ITEM"@,
            Syntax::MOD_ITEM => "MOD_ITEM"@,
            Syntax::ENUM_ITEM => "ENUM_ITEM"@,
            Syntax::USE_ITEM => "USE_ITEM"@,
            Syntax::PATH => "PATH"@,
            Syntax::NAME => "NAME"@,
            Syntax::ARG => "ARG"@,
            Syntax::PARAM_LIST => "PARAM_LIST"@,
            Syntax::PARAM => "PARAM"@,
            Syntax::FN_TYPE_PARAM_LIST => "FN_TYPE_PARAM_LIST"@,
            Syntax::FN_TYPE_PARAM => "FN_TYPE_PARAM"@,
            Syntax::RETURN_TYPE => "RETURN_TYPE"@,
            Syntax::FIELD => "FIELD"@,
            Syntax::PARENT => "PARENT"@,
            Syntax::CLOSURE_PARAM_LIST => "CLOSURE_PARAM_LIST"@,
            Syntax::CLOSURE_PARAM => "CLOSURE_PARAM"@,
            Syntax::RECORD_FIELD => "RECORD_FIELD"@,
            Syntax::GENERICS => "GENERICS"@,
            Syntax::GENERIC_ARGUMENTS => "GENERIC_ARGUMENTS"@,
            Syntax::TYPE_PARAM => "TYPE_PARAM"@,
            Syntax::TYPE_PARAM_BOUND => "TYPE_PARAM_BOUND"@,
            Syntax::PATH_SEGMENT => "PATH_SEGMENT"@,
            Syntax::USE_ROOT_PATH => "USE_ROOT_PATH"@,
            Syntax::USE_SUPER_PATH => "USE_SUPER_PATH"@,
            Syntax::USE_SELF_NAME => "USE_SELF_NAME"@,
            Syntax::USE_PATH => "USE_PATH"@,
            Syntax::USE_NAME => "USE_NAME"@,
            Syntax::USE_GLOBAL => "USE_GLOBAL"@,
            Syntax::USE_TREE_LIST => "USE_TREE_LIST"@,
            Syntax::LET_STMT => "LET_STMT"@,
            Syntax::EXPR_STMT => "EXPR_STMT"@,
            Syntax::NILABLE_TYPE => "NILABLE_TYPE"@,
            Syntax::PAREN_TYPE => "PAREN_TYPE"@,
            Syntax::LIT_TYPE => "LIT_TYPE"@,
            Syntax::LIT_TYPE_STRING => "LIT_TYPE_STRING"@,
            Syntax::LIT_TYPE_INT => "LIT_TYPE_INT"@,
            Syntax::LIT_TYPE_FLOAT => "LIT_TYPE_FLOAT"@,
            Syntax::LIT_TYPE_BOOL => "LIT_TYPE_BOOL"@,
            Syntax::ANY_TYPE => "ANY_TYPE"@,
            Syntax::PATH_TYPE => "PATH_TYPE"@,
            Syntax::FN_TYPE => "FN_TYPE"@,
            Syntax::UNIT_TYPE => "UNIT_TYPE"@,
            Syntax::TUPLE_TYPE => "TUPLE_TYPE"@,
            Syntax::SELF_TYPE => "SELF_TYPE"@,
            Syntax::DYN_TYPE => "DYN_TYPE"@,
            Syntax::SELF_EXPR => "SELF_EXPR"@,
            Syntax::RECORD_EXPR => "RECORD_EXPR"@,
            Syntax::UNIT_EXPR => "UNIT_EXPR"@,
            Syntax::TUPLE_EXPR => "TUPLE_EXPR"@,
            Syntax::PATH_EXPR => "PATH_EXPR"@,
            Syntax::LIT_EXPR => "LIT_EXPR"@,
            Syntax::PAREN_EXPR => "PAREN_EXPR"@,
            Syntax::ASSIGN_EXPR => "ASSIGN_EXPR"@,
            Syntax::CALL_EXPR => "CALL_EXPR"@,
            Syntax::INDEX_EXPR => "INDEX_EXPR"@,
            Syntax::RETURN_EXPR => "RETURN_EXPR"@,
            Syntax::IF_EXPR => "IF_EXPR"@,
            Syntax::FOR_EXPR => "FOR_EXPR"@,
            Syntax::WHILE_EXPR => "WHILE_EXPR"@,
            Syntax::LOOP_EXPR => "LOOP_EXPR"@,
            Syntax::BLOCK_EXPR => "BLOCK_EXPR"@,
            Syntax::LUA_CHUNK_EXPR => "LUA_CHUNK_EXPR"@,
            Syntax::BINARY_EXPR => "BINARY_EXPR"@,
            Syntax::UNARY_EXPR => "UNARY_EXPR"@,
            Syntax::CONTINUE_EXPR => "CONTINUE_EXPR"@,
            Syntax::BREAK_EXPR => "BREAK_EXPR"@,
            Syntax::CLOSURE_EXPR => "CLOSURE_EXPR"@,
            Syntax::METHOD_EXPR => "METHOD_EXPR"@,
            Syntax::SAFE_METHOD_EXPR => "SAFE_METHOD_EXPR"@,
            Syntax::FIELD_EXPR => "FIELD_EXPR"@,
            Syntax::SAFE_FIELD_EXPR => "SAFE_FIELD_EXPR"@,
            Syntax::AS_EXPR => "AS_EXPR"@,
            Syntax::IS_EXPR => "IS_EXPR"@,
            Syntax::IS_NOT_EXPR => "IS_NOT_EXPR"@,
            Syntax::NAME_PAT => "NAME_PAT"@,
            Syntax::PATH_PAT => "PATH_PAT"@,
            Syntax::LIT_PAT => "LIT_PAT"@,
            Syntax::WILDCARD_PAT => "WILDCARD_PAT"@,
            Syntax::COMPILER_ATTRIB_LIST => "COMPILER_ATTRIB_LIST"@,
            Syntax::COMPILER_ATTRIB => "COMPILER_ATTRIB"@,
            Syntax::COMPILER_ATTRIB_ITEM => "COMPILER_ATTRIB_ITEM"@,
            Syntax::LUA_LIT_EXPR => "LUA_LIT_EXPR"@,
            Syntax::LUA_INDEX_EXPR => "LUA_INDEX_EXPR"@,
            Syntax::LUA_CALL_EXPR => "LUA_CALL_EXPR"@,
            Syntax::LUA_UNARY_EXPR => "LUA_UNARY_EXPR"@,
            Syntax::LUA_BINARY_EXPR => "LUA_BINARY_EXPR"@,
            Syntax::LUA_MULTI_EXPR => "LUA_MULTI_EXPR"@,
            Syntax::LUA_TABLE_EXPR => "LUA_TABLE_EXPR"@,
            Syntax::LUA_FIELD_ACCESS_EXPR => "LUA_FIELD_ACCESS_EXPR"@,
            Syntax::LUA_FUNCTION_EXPR => "LUA_FUNCTION_EXPR"@,
            Syntax::LUA_ELEM_ASSIGN => "LUA_ELEM_ASSIGN"@,
            Syntax::LUA_ELEM_INDEX_ASSIGN => "LUA_ELEM_INDEX_ASSIGN"@,
            Syntax::LUA_ELEM_EXPR => "LUA_ELEM_EXPR"@,
            Syntax::LUA_ARG_LIST => "LUA_ARG_LIST"@,
            Syntax::LUA_ARG => "LUA_ARG"@,
            Syntax::LUA_PARAM_LIST => "LUA_PARAM_LIST"@,
            Syntax::LUA_PARAM => "LUA_PARAM"@,
            Syntax::LUA_NAME => "LUA_NAME"@,
            Syntax::LUA_HASH_NAME => "LUA_HASH_NAME"@,
            Syntax::LUA_NUMERIC_FOR => "LUA_NUMERIC_FOR"@,
            Syntax::LUA_GENERIC_FOR => "LUA_GENERIC_FOR"@,
            Syntax::LUA_FUNCTION_STMT => "LUA_FUNCTION_STMT"@,
            Syntax::LUA_CONTINUE_STMT => "LUA_CONTINUE_STMT"@,
            Syntax::LUA_BREAK_STMT => "LUA_BREAK_STMT"@,
            Syntax::LUA_RETURN_STMT => "LUA_RETURN_STMT"@,
            Syntax::LUA_HASH_RETURN_STMT => "LUA_HASH_RETURN_STMT"@,
            Syntax::LUA_BLOCK_STMT => "LUA_BLOCK_STMT"@,
            Syntax::LUA_STMT_EXPR => "LUA_STMT_EXPR"@,
            Syntax::LUA_WHILE_STMT => "LUA_WHILE_STMT"@,
            Syntax::LUA_IF_STMT => "LUA_IF_STMT"@,
            Syntax::LUA_FOR_STMT => "LUA_FOR_STMT"@,
            Syntax::LUA_LOCAL_STMT => "LUA_LOCAL_STMT"@,
            Syntax::LUA_REPEAT_STMT => "LUA_REPEAT_STMT"@,
            Syntax::LUA_ELSE => "LUA_ELSE"@,
            Syntax::LUA_ELSEIF => "LUA_ELSEIF"@,
        }
    }

    /// What `Display` shows of the kind.
    pub fn as_str(self) -> (s: &'static str)
        ensures
            s@ == self.spec_text(),
    {
        match self {
            Syntax::WHITESPACE => "WHITESPACE",
            Syntax::COMMENT => "COMMENT",
            Syntax::IDENT => "identifier",
            Syntax::FLOAT => "float",
            Syntax::INT => "int",
            Syntax::STRING => "string",
            Syntax::SINGLE_STRING => "string",
            Syntax::BRACKET_STRING => "string",
            Syntax::WILDCARD => "_",
            Syntax::L_PAREN => "(",
            Syntax::R_PAREN => ")",
            Syntax::L_BRACKET => "[",
            Syntax::R_BRACKET => "]",
            Syntax::L_BRACE => "{",
            Syntax::R_BRACE => "}",
            Syntax::BAR => "|",
            Syntax::BAR_EQ => "|=",
            Syntax::TILDE => "~",
            Syntax::TILDE_EQ => "~=",
            Syntax::EQ => "=",
            Syntax::EQ2 => "==",
            Syntax::LT => "<",
            Syntax::GT => ">",
            Syntax::LESS_EQ => "<=",
            Syntax::GREATER_EQ => ">=",
            Syntax::NOT_EQ => "!=",
            Syntax::COMMA => ",",
            Syntax::BANG => "!",
            Syntax::DOT => ".",
            Syntax::DOT2 => "..",
            Syntax::DOT3 => "...",
            Syntax::PLUS => "+",
            Syntax::PLUS_EQ => "+=",
            Syntax::MINUS => "-",
            Syntax::MINUS_EQ => "-=",
            Syntax::SLASH => "/",
            Syntax::SLASH_EQ => "/=",
            Syntax::SLASH2 => "//",
            Syntax::SLASH2_EQ => "//=",
            Syntax::STAR => "*",
            Syntax::STAR_EQ => "*=",
            Syntax::PERCENT => "%",
            Syntax::HASH => "#",
            Syntax::CARET => "^",
            Syntax::AT => "@",
            Syntax::PERCENT_EQ => "%=",
            Syntax::SEMI => ";",
            Syntax::COLON => ":",
            Syntax::MARK => "?",
            Syntax::FAT_ARROW => "=>",
            Syntax::ARROW => "->",
            Syntax::LET_KW => "let",
            Syntax::DYN_KW => "dyn",
            Syntax::TRUE_KW => "true",
            Syntax::FALSE_KW => "false",
            Syntax::SUPER_KW => "super",
            Syntax::AND_KW => "and",
            Syntax::OR_KW => "or",
            Syntax::AS_KW => "as",
            Syntax::IS_KW => "is",
            Syntax::NOT_KW => "not",
            Syntax::IS_NOT_KW => "!is",
            Syntax::NIL_KW => "nil",
            Syntax::RETURN_KW => "return",
            Syntax::IF_KW => "if",
            Syntax::ELSE_KW => "else",
            Syntax::FOR_KW => "for",
            Syntax::CONTINUE_KW => "continue",
            Syntax::BREAK_KW => "break",
            Syntax::WHILE_KW => "while",
            Syntax::LOOP_KW => "loop",
            Syntax::IN_KW => "in",
            Syntax::STRUCT_KW => "struct",
            Syntax::ENUM_KW => "enum",
            Syntax::IMPL_KW => "impl",
            Syntax::MATCH_KW => "match",
            Syntax::SELF_KW => "self",
            Syntax::SELF_TYPE_KW => "Self",
            Syntax::CONST_KW => "const",
            Syntax::STATIC_KW => "static",
            Syntax::MOD_KW => "mod",
            Syntax::ROOT_KW => "root",
            Syntax::LUA_KW => "lua",
            Syntax::USE_KW => "use",
            Syntax::FN_KW => "fn",
            Syntax::EOF => "EOF",
            Syntax::ERROR => "ERROR",
            Syntax::MODULE => "MODULE",
            Syntax::FN_ITEM => "FN_ITEM",
            Syntax::STRUCT_ITEM => "STRUCT_ITEM",
            Syntax::IMPL_ITEM => "IMPL_ITEM",
            Syntax::MOD_ITEM => "MOD_ITEM",
            Syntax::ENUM_ITEM => "ENUM_ITEM",
            Syntax::USE_ITEM => "USE_ITEM",
            Syntax::PATH => "PATH",
            Syntax::NAME => "NAME",
            Syntax::ARG => "ARG",
            Syntax::PARAM_LIST => "PARAM_LIST",
            Syntax::PARAM => "PARAM",
            Syntax::FN_TYPE_PARAM_LIST => "FN_TYPE_PARAM_LIST",
            Syntax::FN_TYPE_PARAM => "FN_TYPE_PARAM",
            Syntax::RETURN_TYPE => "RETURN_TYPE",
            Syntax::FIELD => "FIELD",
            Syntax::PARENT => "PARENT",
            Syntax::CLOSURE_PARAM_LIST => "CLOSURE_PARAM_LIST",
            Syntax::CLOSURE_PARAM => "CLOSURE_PARAM",
            Syntax::RECORD_FIELD => "RECORD_FIELD",
            Syntax::GENERICS => "GENERICS",
            Syntax::GENERIC_ARGUMENTS => "GENERIC_ARGUMENTS",
            Syntax::TYPE_PARAM => "TYPE_PARAM",
            Syntax::TYPE_PARAM_BOUND => "TYPE_PARAM_BOUND",
            Syntax::PATH_SEGMENT => "PATH_SEGMENT",
            Syntax::USE_ROOT_PATH => "USE_ROOT_PATH",
            Syntax::USE_SUPER_PATH => "USE_SUPER_PATH",
            Syntax::USE_SELF_NAME => "USE_SELF_NAME",
            Syntax::USE_PATH => "USE_PATH",
            Syntax::USE_NAME => "USE_NAME",
            Syntax::USE_GLOBAL => "USE_GLOBAL",
            Syntax::USE_TREE_LIST => "USE_TREE_LIST",
            Syntax::LET_STMT => "LET_STMT",
            Syntax::EXPR_STMT => "EXPR_STMT",
            Syntax::NILABLE_TYPE => "NILABLE_TYPE",
            Syntax::PAREN_TYPE => "PAREN_TYPE",
            Syntax::LIT_TYPE => "LIT_TYPE",
            Syntax::LIT_TYPE_STRING => "LIT_TYPE_STRING",
            Syntax::LIT_TYPE_INT => "LIT_TYPE_INT",
            Syntax::LIT_TYPE_FLOAT => "LIT_TYPE_FLOAT",
            Syntax::LIT_TYPE_BOOL => "LIT_TYPE_BOOL",
            Syntax::ANY_TYPE => "ANY_TYPE",
            Syntax::PATH_TYPE => "PATH_TYPE",
            Syntax::FN_TYPE => "FN_TYPE",
            Syntax::UNIT_TYPE => "UNIT_TYPE",
            Syntax::TUPLE_TYPE => "TUPLE_TYPE",
            Syntax::SELF_TYPE => "SELF_TYPE",
            Syntax::DYN_TYPE => "DYN_TYPE",
            Syntax::SELF_EXPR => "SELF_EXPR",
            Syntax::RECORD_EXPR => "RECORD_EXPR",
            Syntax::UNIT_EXPR => "UNIT_EXPR",
            Syntax::TUPLE_EXPR => "TUPLE_EXPR",
            Syntax::PATH_EXPR => "PATH_EXPR",
            Syntax::LIT_EXPR => "LIT_EXPR",
            Syntax::PAREN_EXPR => "PAREN_EXPR",
            Syntax::ASSIGN_EXPR => "ASSIGN_EXPR",
            Syntax::CALL_EXPR => "CALL_EXPR",
            Syntax::INDEX_EXPR => "INDEX_EXPR",
            Syntax::RETURN_EXPR => "RETURN_EXPR",
            Syntax::IF_EXPR => "IF_EXPR",
            Syntax::FOR_EXPR => "FOR_EXPR",
            Syntax::WHILE_EXPR => "WHILE_EXPR",
            Syntax::LOOP_EXPR => "LOOP_EXPR",
            Syntax::BLOCK_EXPR => "BLOCK_EXPR",
            Syntax::LUA_CHUNK_EXPR => "LUA_CHUNK_EXPR",
            Syntax::BINARY_EXPR => "BINARY_EXPR",
            Syntax::UNARY_EXPR => "UNARY_EXPR",
            Syntax::CONTINUE_EXPR => "CONTINUE_EXPR",
            Syntax::BREAK_EXPR => "BREAK_EXPR",
            Syntax::CLOSURE_EXPR => "CLOSURE_EXPR",
            Syntax::METHOD_EXPR => "METHOD_EXPR",
            Syntax::SAFE_METHOD_EXPR => "SAFE_METHOD_EXPR",
            Syntax::FIELD_EXPR => "FIELD_EXPR",
            Syntax::SAFE_FIELD_EXPR => "SAFE_FIELD_EXPR",
            Syntax::AS_EXPR => "AS_EXPR",
            Syntax::IS_EXPR => "IS_EXPR",
            Syntax::IS_NOT_EXPR => "IS_NOT_EXPR",
            Syntax::NAME_PAT => "NAME_PAT",
            Syntax::PATH_PAT => "PATH_PAT",
            Syntax::LIT_PAT => "LIT_PAT",
            Syntax::WILDCARD_PAT => "WILDCARD_PAT",
            Syntax::COMPILER_ATTRIB_LIST => "COMPILER_ATTRIB_LIST",
            Syntax::COMPILER_ATTRIB => "COMPILER_ATTRIB",
            Syntax::COMPILER_ATTRIB_ITEM => "COMPILER_ATTRIB_ITEM",
            Syntax::LUA_LIT_EXPR => "LUA_LIT_EXPR",
            Syntax::LUA_INDEX_EXPR => "LUA_INDEX_EXPR",
            Syntax::LUA_CALL_EXPR => "LUA_CALL_EXPR",
            Syntax::LUA_UNARY_EXPR => "LUA_UNARY_EXPR",
            Syntax::LUA_BINARY_EXPR => "LUA_BINARY_EXPR",
            Syntax::LUA_MULTI_EXPR => "LUA_MULTI_EXPR",
            Syntax::LUA_TABLE_EXPR => "LUA_TABLE_EXPR",
            Syntax::LUA_FIELD_ACCESS_EXPR => "LUA_FIELD_ACCESS_EXPR",
            Syntax::LUA_FUNCTION_EXPR => "LUA_FUNCTION_EXPR",
            Syntax::LUA_ELEM_ASSIGN => "LUA_ELEM_ASSIGN",
            Syntax::LUA_ELEM_INDEX_ASSIGN => "LUA_ELEM_INDEX_ASSIGN",
            Syntax::LUA_ELEM_EXPR => "LUA_ELEM_EXPR",
            Syntax::LUA_ARG_LIST => "LUA_ARG_LIST",
            Syntax::LUA_ARG => "LUA_ARG",
            Syntax::LUA_PARAM_LIST => "LUA_PARAM_LIST",
            Syntax::LUA_PARAM => "LUA_PARAM",
            Syntax::LUA_NAME => "LUA_NAME",
            Syntax::LUA_HASH_NAME => "LUA_HASH_NAME",
            Syntax::LUA_NUMERIC_FOR => "LUA_NUMERIC_FOR",
            Syntax::LUA_GENERIC_FOR => "LUA_GENERIC_FOR",
            Syntax::LUA_FUNCTION_STMT => "LUA_FUNCTION_STMT",
            Syntax::LUA_CONTINUE_STMT => "LUA_CONTINUE_STMT",
            Syntax::LUA_BREAK_STMT => "LUA_BREAK_STMT",
            Syntax::LUA_RETURN_STMT => "LUA_RETURN_STMT",
            Syntax::LUA_HASH_RETURN_STMT => "LUA_HASH_RETURN_STMT",
            Syntax::LUA_BLOCK_STMT => "LUA_BLOCK_STMT",
            Syntax::LUA_STMT_EXPR => "LUA_STMT_EXPR",
            Syntax::LUA_WHILE_STMT => "LUA_WHILE_STMT",
            Syntax::LUA_IF_STMT => "LUA_IF_STMT",
            Syntax::LUA_FOR_STMT => "LUA_FOR_STMT",
            Syntax::LUA_LOCAL_STMT => "LUA_LOCAL_STMT",
            Syntax::LUA_REPEAT_STMT => "LUA_REPEAT_STMT",
            Syntax::LUA_ELSE => "LUA_ELSE",
            Syntax::LUA_ELSEIF => "LUA_ELSEIF",
        }
    }
}

impl Syntax {
    /// The binding power of a prefix operator, if the kind is one.
    pub fn prefix_bp(self) -> (r: Option<u8>)
        ensures
            r == (match self {
                Syntax::BANG => Some(15u8),
                Syntax::MINUS => Some(16u8),
                _ => None,
            }),
            r == spec_prefix_bp(self),
    {
        match self {
            Syntax::BANG => Some(15),
            Syntax::MINUS => Some(16),
            _ => None,
        }
    }

    /// The left and right binding powers of an infix operator, if the kind is one.
    pub fn infix_bp(self) -> (r: Option<(u8, u8)>)
        ensures
            r == spec_infix_bp(self),
    {
        match self {
            Syntax::EQ => Some((1, 2)),
            Syntax::OR_KW => Some((3, 4)),
            Syntax::AND_KW => Some((5, 6)),
            Syntax::EQ2 | Syntax::NOT_EQ => Some((7, 8)),
            Syntax::LT | Syntax::LESS_EQ | Syntax::GT | Syntax::GREATER_EQ => Some((9, 10)),
            Syntax::PLUS | Syntax::MINUS => Some((11, 12)),
            Syntax::STAR | Syntax::SLASH | Syntax::PERCENT | Syntax::SLASH2 => Some((13, 14)),
            _ => None,
        }
    }

    pub fn is_whitespace(self) -> (r: bool)
        ensures
            r == in_code_range(self, Syntax::WHITESPACE_FIRST, Syntax::WHITESPACE_LAST),
    {
        self.in_range(Syntax::WHITESPACE_FIRST, Syntax::WHITESPACE_LAST)
    }

    pub fn is_keyword(self) -> (r: bool)
        ensures
            r == in_code_range(self, Syntax::KEYWORD_FIRST, Syntax::KEYWORD_LAST),
    {
        self.in_range(Syntax::KEYWORD_FIRST, Syntax::KEYWORD_LAST)
    }

    pub fn is_symbol(self) -> (r: bool)
        ensures
            r == in_code_range(self, Syntax::SYMBOL_FIRST, Syntax::SYMBOL_LAST),
    {
        self.in_range(Syntax::SYMBOL_FIRST, Syntax::SYMBOL_LAST)
    }

    pub fn is_item(self) -> (r: bool)
        ensures
            r == in_code_range(self, Syntax::ITEM_FIRST, Syntax::ITEM_LAST),
    {
        self.in_range(Syntax::ITEM_FIRST, Syntax::ITEM_LAST)
    }

    pub fn is_elem(self) -> (r: bool)
        ensures
            r == (self == Syntax::FIELD || self == Syntax::FN_ITEM),
    {
        match self {
            Syntax::FIELD | Syntax::FN_ITEM => true,
            _ => false,
        }
    }

    pub fn is_stmt(self) -> (r: bool)
        ensures
            r == in_code_range(self, Syntax::STMT_FIRST, Syntax::STMT_LAST),
    {
        self.in_range(Syntax::STMT_FIRST, Syntax::STMT_LAST)
    }

    pub fn is_expr(self) -> (r: bool)
        ensures
            r == in_code_range(self, Syntax::EXPR_FIRST, Syntax::EXPR_LAST),
    {
        self.in_range(Syntax::EXPR_FIRST, Syntax::EXPR_LAST)
    }

    pub fn is_use(self) -> (r: bool)
        ensures
            r == in_code_range(self, Syntax::USE_FIRST, Syntax::USE_LAST),
    {
        self.in_range(Syntax::USE_FIRST, Syntax::USE_LAST)
    }

    pub fn is_pattern(self) -> (r: bool)
        ensures
            r == in_code_range(self, Syntax::PAT_FIRST, Syntax::PAT_LAST),
    {
        self.in_range(Syntax::PAT_FIRST, Syntax::PAT_LAST)
    }

    pub fn is_type_expr(self) -> (r: bool)
        ensures
            r == in_code_range(self, Syntax::TYPE_EXPR_FIRST, Syntax::TYPE_EXPR_LAST),
    {
        self.in_range(Syntax::TYPE_EXPR_FIRST, Syntax::TYPE_EXPR_LAST)
    }

    pub fn is_lua_stmt(self) -> (r: bool)
        ensures
            r == in_code_range(self, Syntax::LUA_STMT_FIRST, Syntax::LUA_STMT_LAST),
    {
        self.in_range(Syntax::LUA_STMT_FIRST, Syntax::LUA_STMT_LAST)
    }

    pub fn is_lua_expr(self) -> (r: bool)
        ensures
            r == in_code_range(self, Syntax::LUA_EXPR_FIRST, Syntax::LUA_EXPR_LAST),
    {
        self.in_range(Syntax::LUA_EXPR_FIRST, Syntax::LUA_EXPR_LAST)
    }

    pub fn is_lua_elem(self) -> (r: bool)
        ensures
            r == in_code_range(self, Syntax::LUA_ELEM_FIRST, Syntax::LUA_ELEM_LAST),
    {
        self.in_range(Syntax::LUA_ELEM_FIRST, Syntax::LUA_ELEM_LAST)
    }

    fn in_range(self, first: Syntax, last: Syntax) -> (r: bool)
        ensures
            r == in_code_range(self, first, last),
    {
        let c = self.code();
        first.code() <= c && c <= last.code()
    }
}

/// Whether the kind's number lies between those of `first` and `last`, both included.
pub open spec fn in_code_range(k: Syntax, first: Syntax, last: Syntax) -> bool {
    first.spec_code() <= k.spec_code() <= last.spec_code()
}

/// The binding powers of the infix operators.
pub open spec fn spec_infix_bp(k: Syntax) -> Option<(u8, u8)> {
    match k {
        Syntax::EQ => Some((1u8, 2u8)),
        Syntax::OR_KW => Some((3u8, 4u8)),
        Syntax::AND_KW => Some((5u8, 6u8)),
        Syntax::EQ2 | Syntax::NOT_EQ => Some((7u8, 8u8)),
        Syntax::LT | Syntax::LESS_EQ | Syntax::GT | Syntax::GREATER_EQ => Some((9u8, 10u8)),
        Syntax::PLUS | Syntax::MINUS => Some((11u8, 12u8)),
        Syntax::STAR | Syntax::SLASH | Syntax::PERCENT | Syntax::SLASH2 => Some((13u8, 14u8)),
        _ => None,
    }
}


/// The precedence level of an infix operator, loosest first: assignment, `or`, `and`,
/// equality, comparison, addition and subtraction, multiplication and division.
pub open spec fn precedence(k: Syntax) -> Option<int> {
    if k == Syntax::EQ {
        Some(0)
    } else if k == Syntax::OR_KW {
        Some(1)
    } else if k == Syntax::AND_KW {
        Some(2)
    } else if k == Syntax::EQ2 || k == Syntax::NOT_EQ {
        Some(3)
    } else if k == Syntax::LT || k == Syntax::LESS_EQ || k == Syntax::GT || k == Syntax::GREATER_EQ {
        Some(4)
    } else if k == Syntax::PLUS || k == Syntax::MINUS {
        Some(5)
    } else if k == Syntax::STAR || k == Syntax::SLASH || k == Syntax::PERCENT || k == Syntax::SLASH2 {
        Some(6)
    } else {
        None
    }
}

/// The binding power of the prefix operators `!` and `-`.
pub open spec fn spec_prefix_bp(k: Syntax) -> Option<u8> {
    match k {
        Syntax::BANG => Some(15u8),
        Syntax::MINUS => Some(16u8),
        _ => None,
    }
}

/// A prefix operator binds tighter than every infix operator: in `-x a y`, `x` goes with
/// `-` (and `!x a y` with `!`); only `!` and `-` are prefix operators.
pub proof fn lemma_prefix_binds_tightest(p: Syntax, a: Syntax)
    ensures
        spec_prefix_bp(p) is Some <==> (p == Syntax::BANG || p == Syntax::MINUS),
        spec_prefix_bp(p) is Some && precedence(a) is Some ==> spec_prefix_bp(p).unwrap() > spec_infix_bp(
            a,
        ).unwrap().0,
{
}

/// The binding powers follow the precedence levels: exactly the operators with a level
/// have binding powers; in `x a y b z`, `y` goes with the operator of the higher level
/// (`b` binds tighter where its level is higher: its left power is above `a`'s right
/// one), and with `a` where both have the same level (left associativity).
pub proof fn lemma_infix_precedence(a: Syntax, b: Syntax)
    ensures
        spec_infix_bp(a) is Some <==> precedence(a) is Some,
        precedence(a) is Some && precedence(b) is Some && precedence(a)->0 < precedence(b)->0
            ==> spec_infix_bp(b).unwrap().0 > spec_infix_bp(a).unwrap().1,
        precedence(a) is Some && precedence(b) is Some && precedence(a)->0 == precedence(b)->0
            ==> spec_infix_bp(a).unwrap().1 > spec_infix_bp(b).unwrap().0 && spec_infix_bp(a) == spec_infix_bp(b),
        precedence(a) is Some && precedence(b) is Some && precedence(a)->0 > precedence(b)->0
            ==> spec_infix_bp(a).unwrap().1 > spec_infix_bp(b).unwrap().0,
{
}

/// A class of bytes that a token's body is made of.
pub enum ByteClass {
    /// `[ \t\n]`
    Blank,
    /// `[0-9]`
    Digit,
    /// `[0-9A-Za-z_]`
    Word,
    /// `[0-9|_]`, the body of an integer literal
    IntBody,
    /// Anything but a line break: `[^\n\r]`
    InLine,
    /// Anything but the given byte
    Except(u8),
}

pub open spec fn is_digit(b: u8) -> bool {
    48u8 <= b <= 57u8
}

pub open spec fn is_word_byte(b: u8) -> bool {
    is_digit(b) || (65u8 <= b <= 90u8) || (97u8 <= b <= 122u8) || b == 95u8
}

pub open spec fn in_class(c: ByteClass, b: u8) -> bool {
    match c {
        ByteClass::Blank => b == 32u8 || b == 9u8 || b == 10u8,
        ByteClass::Digit => is_digit(b),
        ByteClass::Word => is_word_byte(b),
        ByteClass::IntBody => is_digit(b) || b == 124u8 || b == 95u8,
        ByteClass::InLine => b != 10u8 && b != 13u8,
        ByteClass::Except(q) => b != q,
    }
}

/// The end of the longest run of bytes of class `c` that starts at `i`.
pub open spec fn run_end(s: Seq<u8>, i: int, c: ByteClass) -> int
    decreases s.len() - i,
{
    if 0 <= i < s.len() && in_class(c, s[i]) {
        run_end(s, i + 1, c)
    } else {
        i
    }
}

/// The byte at `k`, or NUL past either end.
pub open spec fn byte_at(s: Seq<u8>, k: int) -> u8 {
    if 0 <= k < s.len() {
        s[k]
    } else {
        0u8
    }
}

/// The first `k >= from` at which `]]` stands, or -1 if there is none.
pub open spec fn find_close_brackets(s: Seq<u8>, k: int) -> int
    decreases s.len() - k,
{
    if k < 0 || k + 1 >= s.len() {
        -1
    } else if s[k] == 93u8 && s[k + 1] == 93u8 {
        k
    } else {
        find_close_brackets(s, k + 1)
    }
}

/// The number of bytes of the UTF-8 character whose first byte is `b`.
pub open spec fn utf8_len(b: u8) -> int {
    if b < 128u8 {
        1
    } else if b >= 240u8 {
        4
    } else if b >= 224u8 {
        3
    } else if b >= 192u8 {
        2
    } else {
        1
    }
}

/// The kind of a word `s[i..e]`: a keyword, the wildcard `_`, or an identifier.
pub open spec fn word_kind(s: Seq<u8>, i: int, e: int) -> Syntax {
    if e - i == 1 && s[i] == 95u8 {
        Syntax::WILDCARD
    } else
    if e - i == 3 && s[i] == 108u8 && s[i + 1] == 101u8 && s[i + 2] == 116u8 {
        Syntax::LET_KW
    } else if e - i == 3 && s[i] == 100u8 && s[i + 1] == 121u8 && s[i + 2] == 110u8 {
        Syntax::DYN_KW
    } else if e - i == 4 && s[i] == 116u8 && s[i + 1] == 114u8 && s[i + 2] == 117u8 && s[i + 3] == 101u8 {
        Syntax::TRUE_KW
    } else if e - i == 5 && s[i] == 102u8 && s[i + 1] == 97u8 && s[i + 2] == 108u8 && s[i + 3] == 115u8 && s[i + 4] == 101u8 {
        Syntax::FALSE_KW
    } else if e - i == 5 && s[i] == 115u8 && s[i + 1] == 117u8 && s[i + 2] == 112u8 && s[i + 3] == 101u8 && s[i + 4] == 114u8 {
        Syntax::SUPER_KW
    } else if e - i == 3 && s[i] == 97u8 && s[i + 1] == 110u8 && s[i + 2] == 100u8 {
        Syntax::AND_KW
    } else if e - i == 2 && s[i] == 111u8 && s[i + 1] == 114u8 {
        Syntax::OR_KW
    } else if e - i == 2 && s[i] == 97u8 && s[i + 1] == 115u8 {
        Syntax::AS_KW
    } else if e - i == 2 && s[i] == 105u8 && s[i + 1] == 115u8 {
        Syntax::IS_KW
    } else if e - i == 3 && s[i] == 110u8 && s[i + 1] == 111u8 && s[i + 2] == 116u8 {
        Syntax::NOT_KW
    } else if e - i == 3 && s[i] == 110u8 && s[i + 1] == 105u8 && s[i + 2] == 108u8 {
        Syntax::NIL_KW
    } else if e - i == 6 && s[i] == 114u8 && s[i + 1] == 101u8 && s[i + 2] == 116u8 && s[i + 3] == 117u8 && s[i + 4] == 114u8 && s[i + 5] == 110u8 {
        Syntax::RETURN_KW
    } else if e - i == 2 && s[i] == 105u8 && s[i + 1] == 102u8 {
        Syntax::IF_KW
    } else if e - i == 4 && s[i] == 101u8 && s[i + 1] == 108u8 && s[i + 2] == 115u8 && s[i + 3] == 101u8 {
        Syntax::ELSE_KW
    } else if e - i == 3 && s[i] == 102u8 && s[i + 1] == 111u8 && s[i + 2] == 114u8 {
        Syntax::FOR_KW
    } else if e - i == 8 && s[i] == 99u8 && s[i + 1] == 111u8 && s[i + 2] == 110u8 && s[i + 3] == 116u8 && s[i + 4] == 105u8 && s[i + 5] == 110u8 && s[i + 6] == 117u8 && s[i + 7] == 101u8 {
        Syntax::CONTINUE_KW
    } else if e - i == 5 && s[i] == 98u8 && s[i + 1] == 114u8 && s[i + 2] == 101u8 && s[i + 3] == 97u8 && s[i + 4] == 107u8 {
        Syntax::BREAK_KW
    } else if e - i == 5 && s[i] == 119u8 && s[i + 1] == 104u8 && s[i + 2] == 105u8 && s[i + 3] == 108u8 && s[i + 4] == 101u8 {
        Syntax::WHILE_KW
    } else if e - i == 4 && s[i] == 108u8 && s[i + 1] == 111u8 && s[i + 2] == 111u8 && s[i + 3] == 112u8 {
        Syntax::LOOP_KW
    } else if e - i == 2 && s[i] == 105u8 && s[i + 1] == 110u8 {
        Syntax::IN_KW
    } else if e - i == 6 && s[i] == 115u8 && s[i + 1] == 116u8 && s[i + 2] == 114u8 && s[i + 3] == 117u8 && s[i + 4] == 99u8 && s[i + 5] == 116u8 {
        Syntax::STRUCT_KW
    } else if e - i == 4 && s[i] == 101u8 && s[i + 1] == 110u8 && s[i + 2] == 117u8 && s[i + 3] == 109u8 {
        Syntax::ENUM_KW
    } else if e - i == 4 && s[i] == 105u8 && s[i + 1] == 109u8 && s[i + 2] == 112u8 && s[i + 3] == 108u8 {
        Syntax::IMPL_KW
    } else if e - i == 5 && s[i] == 109u8 && s[i + 1] == 97u8 && s[i + 2] == 116u8 && s[i + 3] == 99u8 && s[i + 4] == 104u8 {
        Syntax::MATCH_KW
    } else if e - i == 4 && s[i] == 115u8 && s[i + 1] == 101u8 && s[i + 2] == 108u8 && s[i + 3] == 102u8 {
        Syntax::SELF_KW
    } else if e - i == 4 && s[i] == 83u8 && s[i + 1] == 101u8 && s[i + 2] == 108u8 && s[i + 3] == 102u8 {
        Syntax::SELF_TYPE_KW
    } else if e - i == 5 && s[i] == 99u8 && s[i + 1] == 111u8 && s[i + 2] == 110u8 && s[i + 3] == 115u8 && s[i + 4] == 116u8 {
        Syntax::CONST_KW
    } else if e - i == 6 && s[i] == 115u8 && s[i + 1] == 116u8 && s[i + 2] == 97u8 && s[i + 3] == 116u8 && s[i + 4] == 105u8 && s[i + 5] == 99u8 {
        Syntax::STATIC_KW
    } else if e - i == 3 && s[i] == 109u8 && s[i + 1] == 111u8 && s[i + 2] == 100u8 {
        Syntax::MOD_KW
    } else if e - i == 4 && s[i] == 114u8 && s[i + 1] == 111u8 && s[i + 2] == 111u8 && s[i + 3] == 116u8 {
        Syntax::ROOT_KW
    } else if e - i == 3 && s[i] == 108u8 && s[i + 1] == 117u8 && s[i + 2] == 97u8 {
        Syntax::LUA_KW
    } else if e - i == 3 && s[i] == 117u8 && s[i + 1] == 115u8 && s[i + 2] == 101u8 {
        Syntax::USE_KW
    } else if e - i == 2 && s[i] == 102u8 && s[i + 1] == 110u8 {
        Syntax::FN_KW
    } else {
        Syntax::IDENT
    }
}

/// The bytes of an ASCII text.
pub open spec fn ascii_bytes(t: Seq<char>) -> Seq<u8> {
    t.map_values(|c: char| c as u8)
}

/// Whether the kind is a keyword written as a word (every keyword but `!is`), or `_`.
pub open spec fn word_keyword(k: Syntax) -> bool {
    k == Syntax::LET_KW ||
        k == Syntax::DYN_KW ||
        k == Syntax::TRUE_KW ||
        k == Syntax::FALSE_KW ||
        k == Syntax::SUPER_KW ||
        k == Syntax::AND_KW ||
        k == Syntax::OR_KW ||
        k == Syntax::AS_KW ||
        k == Syntax::IS_KW ||
        k == Syntax::NOT_KW ||
        k == Syntax::NIL_KW ||
        k == Syntax::RETURN_KW ||
        k == Syntax::IF_KW ||
        k == Syntax::ELSE_KW ||
        k == Syntax::FOR_KW ||
        k == Syntax::CONTINUE_KW ||
        k == Syntax::BREAK_KW ||
        k == Syntax::WHILE_KW ||
        k == Syntax::LOOP_KW ||
        k == Syntax::IN_KW ||
        k == Syntax::STRUCT_KW ||
        k == Syntax::ENUM_KW ||
        k == Syntax::IMPL_KW ||
        k == Syntax::MATCH_KW ||
        k == Syntax::SELF_KW ||
        k == Syntax::SELF_TYPE_KW ||
        k == Syntax::CONST_KW ||
        k == Syntax::STATIC_KW ||
        k == Syntax::MOD_KW ||
        k == Syntax::ROOT_KW ||
        k == Syntax::LUA_KW ||
        k == Syntax::USE_KW ||
        k == Syntax::FN_KW ||
        k == Syntax::WILDCARD
}

/// Each keyword is lexed as its own kind: a word whose bytes are the keyword's text is
/// that keyword.
pub proof fn lemma_keyword_words(k: Syntax)
    requires
        word_keyword(k),
    ensures
        word_kind(ascii_bytes(k.spec_text()), 0, k.spec_text().len() as int) == k,
{
    match k {
        Syntax::LET_KW => {
            reveal_strlit("let");
        },
        Syntax::DYN_KW => {
            reveal_strlit("dyn");
        },
        Syntax::TRUE_KW => {
            reveal_strlit("true");
        },
        Syntax::FALSE_KW => {
            reveal_strlit("false");
        },
        Syntax::SUPER_KW => {
            reveal_strlit("super");
        },
        Syntax::AND_KW => {
            reveal_strlit("and");
        },
        Syntax::OR_KW => {
            reveal_strlit("or");
        },
        Syntax::AS_KW => {
            reveal_strlit("as");
        },
        Syntax::IS_KW => {
            reveal_strlit("is");
        },
        Syntax::NOT_KW => {
            reveal_strlit("not");
        },
        Syntax::NIL_KW => {
            reveal_strlit("nil");
        },
        Syntax::RETURN_KW => {
            reveal_strlit("return");
        },
        Syntax::IF_KW => {
            reveal_strlit("if");
        },
        Syntax::ELSE_KW => {
            reveal_strlit("else");
        },
        Syntax::FOR_KW => {
            reveal_strlit("for");
        },
        Syntax::CONTINUE_KW => {
            reveal_strlit("continue");
        },
        Syntax::BREAK_KW => {
            reveal_strlit("break");
        },
        Syntax::WHILE_KW => {
            reveal_strlit("while");
        },
        Syntax::LOOP_KW => {
            reveal_strlit("loop");
        },
        Syntax::IN_KW => {
            reveal_strlit("in");
        },
        Syntax::STRUCT_KW => {
            reveal_strlit("struct");
        },
        Syntax::ENUM_KW => {
            reveal_strlit("enum");
        },
        Syntax::IMPL_KW => {
            reveal_strlit("impl");
        },
        Syntax::MATCH_KW => {
            reveal_strlit("match");
        },
        Syntax::SELF_KW => {
            reveal_strlit("self");
        },
        Syntax::SELF_TYPE_KW => {
            reveal_strlit("Self");
        },
        Syntax::CONST_KW => {
            reveal_strlit("const");
        },
        Syntax::STATIC_KW => {
            reveal_strlit("static");
        },
        Syntax::MOD_KW => {
            reveal_strlit("mod");
        },
        Syntax::ROOT_KW => {
            reveal_strlit("root");
        },
        Syntax::LUA_KW => {
            reveal_strlit("lua");
        },
        Syntax::USE_KW => {
            reveal_strlit("use");
        },
        Syntax::FN_KW => {
            reveal_strlit("fn");
        },
        Syntax::WILDCARD => {
            reveal_strlit("_");
        },
        _ => {},
    }
}

/// A word is a keyword (or `_`) only where its bytes are that keyword's text; every other
/// word is an identifier.
pub proof fn lemma_word_is_keyword_text(s: Seq<u8>, i: int, e: int)
    requires
        0 <= i <= e <= s.len(),
    ensures
        word_kind(s, i, e) == Syntax::IDENT || (word_keyword(word_kind(s, i, e)) && s.subrange(i, e)
            == ascii_bytes(word_kind(s, i, e).spec_text())),
{
    match word_kind(s, i, e) {
        Syntax::LET_KW => {
            reveal_strlit("let");
            assert(s.subrange(i, e) =~= ascii_bytes("let"@));
        },
        Syntax::DYN_KW => {
            reveal_strlit("dyn");
            assert(s.subrange(i, e) =~= ascii_bytes("dyn"@));
        },
        Syntax::TRUE_KW => {
            reveal_strlit("true");
            assert(s.subrange(i, e) =~= ascii_bytes("true"@));
        },
        Syntax::FALSE_KW => {
            reveal_strlit("false");
            assert(s.subrange(i, e) =~= ascii_bytes("false"@));
        },
        Syntax::SUPER_KW => {
            reveal_strlit("super");
            assert(s.subrange(i, e) =~= ascii_bytes("super"@));
        },
        Syntax::AND_KW => {
            reveal_strlit("and");
            assert(s.subrange(i, e) =~= ascii_bytes("and"@));
        },
        Syntax::OR_KW => {
            reveal_strlit("or");
            assert(s.subrange(i, e) =~= ascii_bytes("or"@));
        },
        Syntax::AS_KW => {
            reveal_strlit("as");
            assert(s.subrange(i, e) =~= ascii_bytes("as"@));
        },
        Syntax::IS_KW => {
            reveal_strlit("is");
            assert(s.subrange(i, e) =~= ascii_bytes("is"@));
        },
        Syntax::NOT_KW => {
            reveal_strlit("not");
            assert(s.subrange(i, e) =~= ascii_bytes("not"@));
        },
        Syntax::NIL_KW => {
            reveal_strlit("nil");
            assert(s.subrange(i, e) =~= ascii_bytes("nil"@));
        },
        Syntax::RETURN_KW => {
            reveal_strlit("return");
            assert(s.subrange(i, e) =~= ascii_bytes("return"@));
        },
        Syntax::IF_KW => {
            reveal_strlit("if");
            assert(s.subrange(i, e) =~= ascii_bytes("if"@));
        },
        Syntax::ELSE_KW => {
            reveal_strlit("else");
            assert(s.subrange(i, e) =~= ascii_bytes("else"@));
        },
        Syntax::FOR_KW => {
            reveal_strlit("for");
            assert(s.subrange(i, e) =~= ascii_bytes("for"@));
        },
        Syntax::CONTINUE_KW => {
            reveal_strlit("continue");
            assert(s.subrange(i, e) =~= ascii_bytes("continue"@));
        },
        Syntax::BREAK_KW => {
            reveal_strlit("break");
            assert(s.subrange(i, e) =~= ascii_bytes("break"@));
        },
        Syntax::WHILE_KW => {
            reveal_strlit("while");
            assert(s.subrange(i, e) =~= ascii_bytes("while"@));
        },
        Syntax::LOOP_KW => {
            reveal_strlit("loop");
            assert(s.subrange(i, e) =~= ascii_bytes("loop"@));
        },
        Syntax::IN_KW => {
            reveal_strlit("in");
            assert(s.subrange(i, e) =~= ascii_bytes("in"@));
        },
        Syntax::STRUCT_KW => {
            reveal_strlit("struct");
            assert(s.subrange(i, e) =~= ascii_bytes("struct"@));
        },
        Syntax::ENUM_KW => {
            reveal_strlit("enum");
            assert(s.subrange(i, e) =~= ascii_bytes("enum"@));
        },
        Syntax::IMPL_KW => {
            reveal_strlit("impl");
            assert(s.subrange(i, e) =~= ascii_bytes("impl"@));
        },
        Syntax::MATCH_KW => {
            reveal_strlit("match");
            assert(s.subrange(i, e) =~= ascii_bytes("match"@));
        },
        Syntax::SELF_KW => {
            reveal_strlit("self");
            assert(s.subrange(i, e) =~= ascii_bytes("self"@));
        },
        Syntax::SELF_TYPE_KW => {
            reveal_strlit("Self");
            assert(s.subrange(i, e) =~= ascii_bytes("Self"@));
        },
        Syntax::CONST_KW => {
            reveal_strlit("const");
            assert(s.subrange(i, e) =~= ascii_bytes("const"@));
        },
        Syntax::STATIC_KW => {
            reveal_strlit("static");
            assert(s.subrange(i, e) =~= ascii_bytes("static"@));
        },
        Syntax::MOD_KW => {
            reveal_strlit("mod");
            assert(s.subrange(i, e) =~= ascii_bytes("mod"@));
        },
        Syntax::ROOT_KW => {
            reveal_strlit("root");
            assert(s.subrange(i, e) =~= ascii_bytes("root"@));
        },
        Syntax::LUA_KW => {
            reveal_strlit("lua");
            assert(s.subrange(i, e) =~= ascii_bytes("lua"@));
        },
        Syntax::USE_KW => {
            reveal_strlit("use");
            assert(s.subrange(i, e) =~= ascii_bytes("use"@));
        },
        Syntax::FN_KW => {
            reveal_strlit("fn");
            assert(s.subrange(i, e) =~= ascii_bytes("fn"@));
        },
        Syntax::WILDCARD => {
            reveal_strlit("_");
            assert(s.subrange(i, e) =~= ascii_bytes("_"@));
        },
        _ => {},
    }
}

/// The token that starts at byte `i` of `s` and the byte where it ends.
///
/// At each position the longest match of all token patterns wins; on a tie a fixed token
/// beats the number and identifier patterns, and a number beats an identifier. A string
/// that is not closed, and a byte that starts no token, give an `ERROR` token.
pub open spec fn next_token(s: Seq<u8>, i: int) -> (Syntax, int) {
    let n = s.len() as int;
    let b = s[i];
    let b1 = byte_at(s, i + 1);
    let b2 = byte_at(s, i + 2);
    if in_class(ByteClass::Blank, b) {
        (Syntax::WHITESPACE, run_end(s, i, ByteClass::Blank))
    } else if b == 45u8 {
        if b1 == 45u8 {
            (Syntax::COMMENT, run_end(s, i + 2, ByteClass::InLine))
        } else if b1 == 62u8 {
            (Syntax::ARROW, i + 2)
        } else if b1 == 61u8 {
            (Syntax::MINUS_EQ, i + 2)
        } else {
            (Syntax::MINUS, i + 1)
        }
    } else if is_digit(b) {
        let a = run_end(s, i + 1, ByteClass::IntBody);
        let w = run_end(s, i + 1, ByteClass::Word);
        if byte_at(s, a) == 46u8 && is_digit(byte_at(s, a + 1)) {
            (Syntax::FLOAT, run_end(s, a + 1, ByteClass::Digit))
        } else if w > a {
            (Syntax::IDENT, w)
        } else {
            (Syntax::INT, a)
        }
    } else if is_word_byte(b) {
        let e = run_end(s, i + 1, ByteClass::Word);
        (word_kind(s, i, e), e)
    } else if b == 34u8 || b == 39u8 {
        let j = run_end(s, i + 1, ByteClass::Except(b));
        if j < n {
            (if b == 34u8 { Syntax::STRING } else { Syntax::SINGLE_STRING }, j + 1)
        } else {
            (Syntax::ERROR, i + 1)
        }
    } else if b == 91u8 {
        if b1 == 91u8 {
            let k = find_close_brackets(s, i + 2);
            if k >= 0 {
                (Syntax::BRACKET_STRING, k + 2)
            } else {
                (Syntax::ERROR, i + 2)
            }
        } else {
            (Syntax::L_BRACKET, i + 1)
        }
    } else if b == 33u8 {
        if b1 == 105u8 && b2 == 115u8 {
            (Syntax::IS_NOT_KW, i + 3)
        } else if b1 == 61u8 {
            (Syntax::NOT_EQ, i + 2)
        } else {
            (Syntax::BANG, i + 1)
        }
    } else if b == 61u8 {
        if b1 == 61u8 {
            (Syntax::EQ2, i + 2)
        } else if b1 == 62u8 {
            (Syntax::FAT_ARROW, i + 2)
        } else {
            (Syntax::EQ, i + 1)
        }
    } else if b == 47u8 {
        if b1 == 47u8 {
            if b2 == 61u8 {
                (Syntax::SLASH2_EQ, i + 3)
            } else {
                (Syntax::SLASH2, i + 2)
            }
        } else if b1 == 61u8 {
            (Syntax::SLASH_EQ, i + 2)
        } else {
            (Syntax::SLASH, i + 1)
        }
    } else if b == 46u8 {
        if b1 == 46u8 {
            if b2 == 46u8 {
                (Syntax::DOT3, i + 3)
            } else {
                (Syntax::DOT2, i + 2)
            }
        } else {
            (Syntax::DOT, i + 1)
        }
    } else if b1 == 61u8 && (b == 60u8 || b == 62u8 || b == 124u8 || b == 126u8 || b == 43u8
        || b == 42u8 || b == 37u8) {
        (two_byte_token(b), i + 2)
    } else if one_byte_token(b) is Some {
        (one_byte_token(b)->0, i + 1)
    } else {
        (Syntax::ERROR, if i + utf8_len(b) <= n { i + utf8_len(b) } else { n })
    }
}

/// The tokens `<=`, `>=`, `|=`, `~=`, `+=`, `*=` and `%=` by their first byte.
pub open spec fn two_byte_token(b: u8) -> Syntax {
    if b == 60u8 {
        Syntax::LESS_EQ
    } else if b == 62u8 {
        Syntax::GREATER_EQ
    } else if b == 124u8 {
        Syntax::BAR_EQ
    } else if b == 126u8 {
        Syntax::TILDE_EQ
    } else if b == 43u8 {
        Syntax::PLUS_EQ
    } else if b == 42u8 {
        Syntax::STAR_EQ
    } else {
        Syntax::PERCENT_EQ
    }
}

/// The tokens of a single byte.
pub open spec fn one_byte_token(b: u8) -> Option<Syntax> {
    if b == 40u8 {
        Some(Syntax::L_PAREN)
    } else if b == 41u8 {
        Some(Syntax::R_PAREN)
    } else if b == 93u8 {
        Some(Syntax::R_BRACKET)
    } else if b == 123u8 {
        Some(Syntax::L_BRACE)
    } else if b == 125u8 {
        Some(Syntax::R_BRACE)
    } else if b == 124u8 {
        Some(Syntax::BAR)
    } else if b == 126u8 {
        Some(Syntax::TILDE)
    } else if b == 60u8 {
        Some(Syntax::LT)
    } else if b == 62u8 {
        Some(Syntax::GT)
    } else if b == 44u8 {
        Some(Syntax::COMMA)
    } else if b == 43u8 {
        Some(Syntax::PLUS)
    } else if b == 42u8 {
        Some(Syntax::STAR)
    } else if b == 37u8 {
        Some(Syntax::PERCENT)
    } else if b == 35u8 {
        Some(Syntax::HASH)
    } else if b == 94u8 {
        Some(Syntax::CARET)
    } else if b == 64u8 {
        Some(Syntax::AT)
    } else if b == 59u8 {
        Some(Syntax::SEMI)
    } else if b == 58u8 {
        Some(Syntax::COLON)
    } else if b == 63u8 {
        Some(Syntax::MARK)
    } else {
        None
    }
}

/// The tokens of `s[i..]`, each as its kind and the byte range it covers.
pub open spec fn lex_from(s: Seq<u8>, i: int) -> Seq<(Syntax, int, int)>
    decreases s.len() - i,
{
    if i < 0 || i >= s.len() {
        seq![]
    } else {
        let (k, e) = next_token(s, i);
        if e <= i || e > s.len() {
            seq![]
        } else {
            seq![(k, i, e)] + lex_from(s, e)
        }
    }
}

/// The tokens of the whole input.
pub open spec fn lex_spec(s: Seq<u8>) -> Seq<(Syntax, int, int)> {
    lex_from(s, 0)
}

/// A token as the lexer hands it out: its kind and the bytes of the input it covers.
#[derive(Debug)]
pub struct LexToken {
    pub token: Syntax,
    pub range: Range<usize>,
}

impl Clone for LexToken {
    fn clone(&self) -> (r: Self)
        ensures
            r == *self,
    {
        LexToken { token: self.token, range: Range { start: self.range.start, end: self.range.end } }
    }
}

pub open spec fn token_view(t: LexToken) -> (Syntax, int, int) {
    (t.token, t.range.start as int, t.range.end as int)
}

pub open spec fn tokens_view(ts: Seq<LexToken>) -> Seq<(Syntax, int, int)> {
    ts.map_values(|t: LexToken| token_view(t))
}

pub(crate) proof fn lemma_run_end_bounds(s: Seq<u8>, i: int, c: ByteClass)
    requires
        0 <= i <= s.len(),
    ensures
        i <= run_end(s, i, c) <= s.len(),
        run_end(s, i, c) == s.len() || !in_class(c, s[run_end(s, i, c)]),
    decreases s.len() - i,
{
    if i < s.len() && in_class(c, s[i]) {
        lemma_run_end_bounds(s, i + 1, c);
    }
}

proof fn lemma_find_close_brackets(s: Seq<u8>, k: int)
    requires
        0 <= k,
    ensures
        find_close_brackets(s, k) == -1 || (k <= find_close_brackets(s, k)
            && find_close_brackets(s, k) + 2 <= s.len()),
    decreases s.len() - k,
{
    if !(k + 1 >= s.len()) && !(s[k] == 93u8 && s[k + 1] == 93u8) {
        lemma_find_close_brackets(s, k + 1);
    }
}

/// Each token is non-empty and ends within the input.
pub proof fn lemma_next_token_progress(s: Seq<u8>, i: int)
    requires
        0 <= i < s.len(),
    ensures
        i < next_token(s, i).1 <= s.len(),
{
    let b = s[i];
    let n = s.len() as int;
    lemma_run_end_bounds(s, i, ByteClass::Blank);
    if i + 2 <= n {
        lemma_run_end_bounds(s, i + 2, ByteClass::InLine);
        lemma_find_close_brackets(s, i + 2);
    }
    lemma_run_end_bounds(s, i + 1, ByteClass::IntBody);
    lemma_run_end_bounds(s, i + 1, ByteClass::Word);
    lemma_run_end_bounds(s, i + 1, ByteClass::Except(b));
    let a = run_end(s, i + 1, ByteClass::IntBody);
    if 0 <= a + 1 <= n {
        lemma_run_end_bounds(s, a + 1, ByteClass::Digit);
    }
}

fn class_contains(c: &ByteClass, b: u8) -> (r: bool)
    ensures
        r == in_class(*c, b),
{
    match c {
        ByteClass::Blank => b == 32u8 || b == 9u8 || b == 10u8,
        ByteClass::Digit => 48u8 <= b && b <= 57u8,
        ByteClass::Word => (48u8 <= b && b <= 57u8) || (65u8 <= b && b <= 90u8) || (97u8 <= b
            && b <= 122u8) || b == 95u8,
        ByteClass::IntBody => (48u8 <= b && b <= 57u8) || b == 124u8 || b == 95u8,
        ByteClass::InLine => b != 10u8 && b != 13u8,
        ByteClass::Except(q) => b != *q,
    }
}

pub(crate) fn scan(bytes: &[u8], i: usize, c: ByteClass) -> (j: usize)
    requires
        i <= bytes@.len(),
    ensures
        j == run_end(bytes@, i as int, c),
{
    let mut j = i;
    while j < bytes.len() && class_contains(&c, bytes[j])
        invariant
            i <= j <= bytes@.len(),
            run_end(bytes@, i as int, c) == run_end(bytes@, j as int, c),
        decreases bytes@.len() - j,
    {
        j = j + 1;
    }
    j
}

fn byte_or_nul(bytes: &[u8], k: usize) -> (b: u8)
    ensures
        b == byte_at(bytes@, k as int),
{
    if k < bytes.len() {
        bytes[k]
    } else {
        0
    }
}

fn find_brackets(bytes: &[u8], from: usize) -> (r: Option<usize>)
    requires
        from <= bytes@.len(),
    ensures
        match r {
            Some(k) => find_close_brackets(bytes@, from as int) == k,
            None => find_close_brackets(bytes@, from as int) == -1,
        },
{
    let mut k = from;
    while bytes.len() - k > 1
        invariant
            from <= k <= bytes@.len(),
            find_close_brackets(bytes@, from as int) == find_close_brackets(bytes@, k as int),
        decreases bytes@.len() - k,
    {
        if bytes[k] == 93u8 && bytes[k + 1] == 93u8 {
            return Some(k);
        }
        k = k + 1;
    }
    None
}

fn word_kind_exec(bytes: &[u8], i: usize, e: usize) -> (k: Syntax)
    requires
        i < e <= bytes@.len(),
    ensures
        k == word_kind(bytes@, i as int, e as int),
{
    let len = e - i;
    if len == 1 && bytes[i] == 95u8 {
        Syntax::WILDCARD
    } else
    if len == 3 && bytes[i] == 108u8 && bytes[i + 1] == 101u8 && bytes[i + 2] == 116u8 {
        Syntax::LET_KW
    } else if len == 3 && bytes[i] == 100u8 && bytes[i + 1] == 121u8 && bytes[i + 2] == 110u8 {
        Syntax::DYN_KW
    } else if len == 4 && bytes[i] == 116u8 && bytes[i + 1] == 114u8 && bytes[i + 2] == 117u8 && bytes[i + 3] == 101u8 {
        Syntax::TRUE_KW
    } else if len == 5 && bytes[i] == 102u8 && bytes[i + 1] == 97u8 && bytes[i + 2] == 108u8 && bytes[i + 3] == 115u8 && bytes[i + 4] == 101u8 {
        Syntax::FALSE_KW
    } else if len == 5 && bytes[i] == 115u8 && bytes[i + 1] == 117u8 && bytes[i + 2] == 112u8 && bytes[i + 3] == 101u8 && bytes[i + 4] == 114u8 {
        Syntax::SUPER_KW
    } else if len == 3 && bytes[i] == 97u8 && bytes[i + 1] == 110u8 && bytes[i + 2] == 100u8 {
        Syntax::AND_KW
    } else if len == 2 && bytes[i] == 111u8 && bytes[i + 1] == 114u8 {
        Syntax::OR_KW
    } else if len == 2 && bytes[i] == 97u8 && bytes[i + 1] == 115u8 {
        Syntax::AS_KW
    } else if len == 2 && bytes[i] == 105u8 && bytes[i + 1] == 115u8 {
        Syntax::IS_KW
    } else if len == 3 && bytes[i] == 110u8 && bytes[i + 1] == 111u8 && bytes[i + 2] == 116u8 {
        Syntax::NOT_KW
    } else if len == 3 && bytes[i] == 110u8 && bytes[i + 1] == 105u8 && bytes[i + 2] == 108u8 {
        Syntax::NIL_KW
    } else if len == 6 && bytes[i] == 114u8 && bytes[i + 1] == 101u8 && bytes[i + 2] == 116u8 && bytes[i + 3] == 117u8 && bytes[i + 4] == 114u8 && bytes[i + 5] == 110u8 {
        Syntax::RETURN_KW
    } else if len == 2 && bytes[i] == 105u8 && bytes[i + 1] == 102u8 {
        Syntax::IF_KW
    } else if len == 4 && bytes[i] == 101u8 && bytes[i + 1] == 108u8 && bytes[i + 2] == 115u8 && bytes[i + 3] == 101u8 {
        Syntax::ELSE_KW
    } else if len == 3 && bytes[i] == 102u8 && bytes[i + 1] == 111u8 && bytes[i + 2] == 114u8 {
        Syntax::FOR_KW
    } else if len == 8 && bytes[i] == 99u8 && bytes[i + 1] == 111u8 && bytes[i + 2] == 110u8 && bytes[i + 3] == 116u8 && bytes[i + 4] == 105u8 && bytes[i + 5] == 110u8 && bytes[i + 6] == 117u8 && bytes[i + 7] == 101u8 {
        Syntax::CONTINUE_KW
    } else if len == 5 && bytes[i] == 98u8 && bytes[i + 1] == 114u8 && bytes[i + 2] == 101u8 && bytes[i + 3] == 97u8 && bytes[i + 4] == 107u8 {
        Syntax::BREAK_KW
    } else if len == 5 && bytes[i] == 119u8 && bytes[i + 1] == 104u8 && bytes[i + 2] == 105u8 && bytes[i + 3] == 108u8 && bytes[i + 4] == 101u8 {
        Syntax::WHILE_KW
    } else if len == 4 && bytes[i] == 108u8 && bytes[i + 1] == 111u8 && bytes[i + 2] == 111u8 && bytes[i + 3] == 112u8 {
        Syntax::LOOP_KW
    } else if len == 2 && bytes[i] == 105u8 && bytes[i + 1] == 110u8 {
        Syntax::IN_KW
    } else if len == 6 && bytes[i] == 115u8 && bytes[i + 1] == 116u8 && bytes[i + 2] == 114u8 && bytes[i + 3] == 117u8 && bytes[i + 4] == 99u8 && bytes[i + 5] == 116u8 {
        Syntax::STRUCT_KW
    } else if len == 4 && bytes[i] == 101u8 && bytes[i + 1] == 110u8 && bytes[i + 2] == 117u8 && bytes[i + 3] == 109u8 {
        Syntax::ENUM_KW
    } else if len == 4 && bytes[i] == 105u8 && bytes[i + 1] == 109u8 && bytes[i + 2] == 112u8 && bytes[i + 3] == 108u8 {
        Syntax::IMPL_KW
    } else if len == 5 && bytes[i] == 109u8 && bytes[i + 1] == 97u8 && bytes[i + 2] == 116u8 && bytes[i + 3] == 99u8 && bytes[i + 4] == 104u8 {
        Syntax::MATCH_KW
    } else if len == 4 && bytes[i] == 115u8 && bytes[i + 1] == 101u8 && bytes[i + 2] == 108u8 && bytes[i + 3] == 102u8 {
        Syntax::SELF_KW
    } else if len == 4 && bytes[i] == 83u8 && bytes[i + 1] == 101u8 && bytes[i + 2] == 108u8 && bytes[i + 3] == 102u8 {
        Syntax::SELF_TYPE_KW
    } else if len == 5 && bytes[i] == 99u8 && bytes[i + 1] == 111u8 && bytes[i + 2] == 110u8 && bytes[i + 3] == 115u8 && bytes[i + 4] == 116u8 {
        Syntax::CONST_KW
    } else if len == 6 && bytes[i] == 115u8 && bytes[i + 1] == 116u8 && bytes[i + 2] == 97u8 && bytes[i + 3] == 116u8 && bytes[i + 4] == 105u8 && bytes[i + 5] == 99u8 {
        Syntax::STATIC_KW
    } else if len == 3 && bytes[i] == 109u8 && bytes[i + 1] == 111u8 && bytes[i + 2] == 100u8 {
        Syntax::MOD_KW
    } else if len == 4 && bytes[i] == 114u8 && bytes[i + 1] == 111u8 && bytes[i + 2] == 111u8 && bytes[i + 3] == 116u8 {
        Syntax::ROOT_KW
    } else if len == 3 && bytes[i] == 108u8 && bytes[i + 1] == 117u8 && bytes[i + 2] == 97u8 {
        Syntax::LUA_KW
    } else if len == 3 && bytes[i] == 117u8 && bytes[i + 1] == 115u8 && bytes[i + 2] == 101u8 {
        Syntax::USE_KW
    } else if len == 2 && bytes[i] == 102u8 && bytes[i + 1] == 110u8 {
        Syntax::FN_KW
    } else {
        Syntax::IDENT
    }
}

pub(crate) fn utf8_len_exec(b: u8) -> (r: usize)
    ensures
        r == utf8_len(b),
{
    if b < 128u8 {
        1
    } else if b >= 240u8 {
        4
    } else if b >= 224u8 {
        3
    } else if b >= 192u8 {
        2
    } else {
        1
    }
}

fn two_byte_token_exec(b: u8) -> (k: Syntax)
    ensures
        k == two_byte_token(b),
{
    if b == 60u8 {
        Syntax::LESS_EQ
    } else if b == 62u8 {
        Syntax::GREATER_EQ
    } else if b == 124u8 {
        Syntax::BAR_EQ
    } else if b == 126u8 {
        Syntax::TILDE_EQ
    } else if b == 43u8 {
        Syntax::PLUS_EQ
    } else if b == 42u8 {
        Syntax::STAR_EQ
    } else {
        Syntax::PERCENT_EQ
    }
}

fn one_byte_token_exec(b: u8) -> (k: Option<Syntax>)
    ensures
        k == one_byte_token(b),
{
    if b == 40u8 {
        Some(Syntax::L_PAREN)
    } else if b == 41u8 {
        Some(Syntax::R_PAREN)
    } else if b == 93u8 {
        Some(Syntax::R_BRACKET)
    } else if b == 123u8 {
        Some(Syntax::L_BRACE)
    } else if b == 125u8 {
        Some(Syntax::R_BRACE)
    } else if b == 124u8 {
        Some(Syntax::BAR)
    } else if b == 126u8 {
        Some(Syntax::TILDE)
    } else if b == 60u8 {
        Some(Syntax::LT)
    } else if b == 62u8 {
        Some(Syntax::GT)
    } else if b == 44u8 {
        Some(Syntax::COMMA)
    } else if b == 43u8 {
        Some(Syntax::PLUS)
    } else if b == 42u8 {
        Some(Syntax::STAR)
    } else if b == 37u8 {
        Some(Syntax::PERCENT)
    } else if b == 35u8 {
        Some(Syntax::HASH)
    } else if b == 94u8 {
        Some(Syntax::CARET)
    } else if b == 64u8 {
        Some(Syntax::AT)
    } else if b == 59u8 {
        Some(Syntax::SEMI)
    } else if b == 58u8 {
        Some(Syntax::COLON)
    } else if b == 63u8 {
        Some(Syntax::MARK)
    } else {
        None
    }
}

/// The token that starts at byte `i` and the byte where it ends.
fn next_token_exec(bytes: &[u8], i: usize) -> (r: (Syntax, usize))
    requires
        i < bytes@.len(),
    ensures
        r.0 == next_token(bytes@, i as int).0,
        r.1 == next_token(bytes@, i as int).1,
{
    proof {
        lemma_next_token_progress(bytes@, i as int);
    }
    let n = bytes.len();
    let b = bytes[i];
    let b1 = byte_or_nul(bytes, i + 1);
    let b2 = if n - i > 2 {
        bytes[i + 2]
    } else {
        0u8
    };
    assert(b2 == byte_at(bytes@, i + 2));
    if b == 32u8 || b == 9u8 || b == 10u8 {
        (Syntax::WHITESPACE, scan(bytes, i, ByteClass::Blank))
    } else if b == 45u8 {
        if b1 == 45u8 {
            (Syntax::COMMENT, scan(bytes, i + 2, ByteClass::InLine))
        } else if b1 == 62u8 {
            (Syntax::ARROW, i + 2)
        } else if b1 == 61u8 {
            (Syntax::MINUS_EQ, i + 2)
        } else {
            (Syntax::MINUS, i + 1)
        }
    } else if 48u8 <= b && b <= 57u8 {
        let a = scan(bytes, i + 1, ByteClass::IntBody);
        let w = scan(bytes, i + 1, ByteClass::Word);
        proof {
            lemma_run_end_bounds(bytes@, i + 1, ByteClass::IntBody);
        }
        let c0 = byte_or_nul(bytes, a);
        if c0 == 46u8 {
            let c1 = byte_or_nul(bytes, a + 1);
            if 48u8 <= c1 && c1 <= 57u8 {
                return (Syntax::FLOAT, scan(bytes, a + 1, ByteClass::Digit));
            }
        }
        if w > a {
            (Syntax::IDENT, w)
        } else {
            (Syntax::INT, a)
        }
    } else if (65u8 <= b && b <= 90u8) || (97u8 <= b && b <= 122u8) || b == 95u8 {
        let e = scan(bytes, i + 1, ByteClass::Word);
        proof {
            lemma_run_end_bounds(bytes@, i + 1, ByteClass::Word);
        }
        (word_kind_exec(bytes, i, e), e)
    } else if b == 34u8 || b == 39u8 {
        let j = scan(bytes, i + 1, ByteClass::Except(b));
        proof {
            lemma_run_end_bounds(bytes@, i + 1, ByteClass::Except(b));
        }
        if j < n {
            (if b == 34u8 { Syntax::STRING } else { Syntax::SINGLE_STRING }, j + 1)
        } else {
            (Syntax::ERROR, i + 1)
        }
    } else if b == 91u8 {
        if b1 == 91u8 {
            match find_brackets(bytes, i + 2) {
                Some(k) => {
                    proof {
                        lemma_find_close_brackets(bytes@, i + 2);
                    }
                    (Syntax::BRACKET_STRING, k + 2)
                },
                None => (Syntax::ERROR, i + 2),
            }
        } else {
            (Syntax::L_BRACKET, i + 1)
        }
    } else if b == 33u8 {
        if b1 == 105u8 && b2 == 115u8 {
            (Syntax::IS_NOT_KW, i + 3)
        } else if b1 == 61u8 {
            (Syntax::NOT_EQ, i + 2)
        } else {
            (Syntax::BANG, i + 1)
        }
    } else if b == 61u8 {
        if b1 == 61u8 {
            (Syntax::EQ2, i + 2)
        } else if b1 == 62u8 {
            (Syntax::FAT_ARROW, i + 2)
        } else {
            (Syntax::EQ, i + 1)
        }
    } else if b == 47u8 {
        if b1 == 47u8 {
            if b2 == 61u8 {
                (Syntax::SLASH2_EQ, i + 3)
            } else {
                (Syntax::SLASH2, i + 2)
            }
        } else if b1 == 61u8 {
            (Syntax::SLASH_EQ, i + 2)
        } else {
            (Syntax::SLASH, i + 1)
        }
    } else if b == 46u8 {
        if b1 == 46u8 {
            if b2 == 46u8 {
                (Syntax::DOT3, i + 3)
            } else {
                (Syntax::DOT2, i + 2)
            }
        } else {
            (Syntax::DOT, i + 1)
        }
    } else if b1 == 61u8 && (b == 60u8 || b == 62u8 || b == 124u8 || b == 126u8 || b == 43u8
        || b == 42u8 || b == 37u8) {
        (two_byte_token_exec(b), i + 2)
    } else {
        match one_byte_token_exec(b) {
            Some(k) => (k, i + 1),
            None => {
                let l = utf8_len_exec(b);
                if l <= n - i {
                    (Syntax::ERROR, i + l)
                } else {
                    (Syntax::ERROR, n)
                }
            },
        }
    }
}

/// Splits `input` into tokens, whitespace and comments included.
///
/// The tokens come out in order and cover the whole input: each starts where the one before
/// it ended (see `lemma_tokens_tile`).
pub fn lex(input: &str) -> (tokens: Vec<LexToken>)
    ensures
        tokens_view(tokens@) == lex_spec(input.spec_bytes()),
{
    let bytes = input.as_bytes();
    let n = bytes.len();
    let mut tokens: Vec<LexToken> = Vec::new();
    let mut i: usize = 0;
    assert(tokens_view(tokens@) =~= seq![]);
    while i < n
        invariant
            n == bytes@.len(),
            i <= n,
            lex_spec(bytes@) == tokens_view(tokens@) + lex_from(bytes@, i as int),
        decreases n - i,
    {
        let (k, e) = next_token_exec(bytes, i);
        proof {
            lemma_next_token_progress(bytes@, i as int);
        }
        let ghost before = tokens@;
        tokens.push(LexToken { token: k, range: Range { start: i, end: e } });
        proof {
            assert(tokens_view(tokens@) =~= tokens_view(before).push((k, i as int, e as int)));
            assert(lex_from(bytes@, i as int) == seq![(k, i as int, e as int)] + lex_from(
                bytes@,
                e as int,
            ));
            assert(tokens_view(before) + lex_from(bytes@, i as int) =~= tokens_view(tokens@)
                + lex_from(bytes@, e as int));
        }
        i = e;
    }
    assert(lex_from(bytes@, n as int) =~= seq![]);
    assert(tokens_view(tokens@) + lex_from(bytes@, n as int) =~= tokens_view(tokens@));
    tokens
}


/// Whether the byte at `e` could not have been added to a token of kind `k` that ends there.
pub open spec fn ends_maximal(s: Seq<u8>, k: Syntax, e: int) -> bool {
    let next = byte_at(s, e);
    let more = e < s.len();
    if k == Syntax::IDENT || k == Syntax::WILDCARD || (in_code_range(
        k,
        Syntax::KEYWORD_FIRST,
        Syntax::KEYWORD_LAST,
    ) && k != Syntax::IS_NOT_KW) {
        more ==> !is_word_byte(next)
    } else if k == Syntax::WHITESPACE {
        more ==> !in_class(ByteClass::Blank, next)
    } else if k == Syntax::COMMENT {
        more ==> next == 10u8 || next == 13u8
    } else if k == Syntax::INT {
        more ==> !in_class(ByteClass::IntBody, next) && !(next == 46u8 && is_digit(
            byte_at(s, e + 1),
        ))
    } else {
        true
    }
}

proof fn lemma_next_token_maximal(s: Seq<u8>, i: int)
    requires
        0 <= i < s.len(),
    ensures
        ends_maximal(s, next_token(s, i).0, next_token(s, i).1),
{
    let b = s[i];
    let n = s.len() as int;
    lemma_run_end_bounds(s, i, ByteClass::Blank);
    if i + 2 <= n {
        lemma_run_end_bounds(s, i + 2, ByteClass::InLine);
    }
    lemma_run_end_bounds(s, i + 1, ByteClass::IntBody);
    lemma_run_end_bounds(s, i + 1, ByteClass::Word);
}

proof fn lemma_lex_from_props(s: Seq<u8>, i: int)
    requires
        0 <= i <= s.len(),
    ensures
        ({
            let t = lex_from(s, i);
            &&& (t.len() == 0 <==> i == s.len())
            &&& t.len() > 0 ==> t[0].1 == i && t[t.len() - 1].2 == s.len()
            &&& forall|j: int| 0 <= j < t.len() ==> i <= #[trigger] t[j].1 < t[j].2 <= s.len()
            &&& forall|j: int| 0 <= j < t.len() - 1 ==> #[trigger] t[j].2 == t[j + 1].1
            &&& forall|j: int| 0 <= j < t.len() ==> ends_maximal(s, #[trigger] t[j].0, t[j].2)
        }),
    decreases s.len() - i,
{
    if i < s.len() {
        lemma_next_token_progress(s, i);
        lemma_next_token_maximal(s, i);
        let (k, e) = next_token(s, i);
        lemma_lex_from_props(s, e);
        let rest = lex_from(s, e);
        let t = lex_from(s, i);
        assert(t == seq![(k, i, e)] + rest);
        assert forall|j: int| 0 <= j < t.len() implies i <= #[trigger] t[j].1 < t[j].2 <= s.len()
            && ends_maximal(s, t[j].0, t[j].2) by {
            if j > 0 {
                assert(t[j] == rest[j - 1]);
            }
        }
        assert forall|j: int| 0 <= j < t.len() - 1 implies #[trigger] t[j].2 == t[j + 1].1 by {
            if j > 0 {
                assert(t[j] == rest[j - 1]);
                assert(t[j + 1] == rest[j]);
            }
        }
    }
}

/// The tokens cover the input without gap or overlap: each one is non-empty, the first
/// starts at byte 0, each starts where the one before it ended, and the last ends at the
/// end of the input (there are none only for empty input).
pub proof fn lemma_tokens_tile(s: Seq<u8>)
    ensures
        ({
            let t = lex_spec(s);
            &&& (t.len() == 0 <==> s.len() == 0)
            &&& t.len() > 0 ==> t[0].1 == 0 && t[t.len() - 1].2 == s.len()
            &&& forall|j: int| 0 <= j < t.len() ==> 0 <= #[trigger] t[j].1 < t[j].2 <= s.len()
            &&& forall|j: int| 0 <= j < t.len() - 1 ==> #[trigger] t[j].2 == t[j + 1].1
        }),
{
    lemma_lex_from_props(s, 0);
}

/// Longest match: no token could have taken in the byte that follows it. A word (an
/// identifier, a keyword, `_`) is never followed by a letter, digit or `_`; whitespace never
/// by a blank; a comment only by a line break; an integer never by another digit, `|`, `_`,
/// or a `.` and digit that would make it a float.
pub proof fn lemma_tokens_longest_match(s: Seq<u8>)
    ensures
        forall|j: int|
            0 <= j < lex_spec(s).len() ==> ends_maximal(
                s,
                #[trigger] lex_spec(s)[j].0,
                lex_spec(s)[j].2,
            ),
{
    lemma_lex_from_props(s, 0);
}

proof fn lemma_word_kind_is_token(s: Seq<u8>, i: int, e: int)
    ensures
        word_kind(s, i, e).spec_code() < 128,
{
}

proof fn lemma_next_token_is_token(s: Seq<u8>, i: int)
    requires
        0 <= i < s.len(),
    ensures
        next_token(s, i).0.spec_code() < 128,
{
    lemma_word_kind_is_token(s, i, run_end(s, i + 1, ByteClass::Word));
}

/// Every kind the lexer hands out is a token kind: its number is below 128.
pub proof fn lemma_tokens_are_tokens(s: Seq<u8>, i: int)
    requires
        0 <= i <= s.len(),
    ensures
        forall|j: int| 0 <= j < lex_from(s, i).len() ==> (#[trigger] lex_from(s, i)[j]).0.spec_code() < 128,
    decreases s.len() - i,
{
    if i < s.len() {
        lemma_next_token_progress(s, i);
        lemma_next_token_is_token(s, i);
        let (k, e) = next_token(s, i);
        if e > i && e <= s.len() {
            lemma_tokens_are_tokens(s, e);
            let rest = lex_from(s, e);
            let t = lex_from(s, i);
            assert(t == seq![(k, i, e)] + rest);
            assert forall|j: int| 0 <= j < t.len() implies (#[trigger] t[j]).0.spec_code() < 128 by {
                if j > 0 {
                    assert(t[j] == rest[j - 1]);
                }
            }
        }
    }
}

} // verus!
