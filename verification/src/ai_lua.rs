//! A transformer whose Lua script is written by a language model from a
//! description in plain words: the prompt that asks for the script, and
//! the cleaning of the model's answer.
use vstd::prelude::*;
use crate::file_map::JsonFileMap;
use crate::text::{append_str, chars_of, string_from_chars, trim, trimmed};

verus! {

/// Settings of an AI-written Lua transformer.
pub struct AiLuaConfig {
    pub name: String,
    pub user_description: String,
    pub api_key: String,
    /// Where generated scripts are cached, by description.
    pub cache_path: String,
}

impl AiLuaConfig {
    pub fn new(name: String, user_description: String, api_key: String, cache_path: String) -> (c:
        Self)
        ensures
            c.name == name,
            c.user_description == user_description,
            c.api_key == api_key,
            c.cache_path == cache_path,
    {
        AiLuaConfig { name, user_description, api_key, cache_path }
    }
}

/// The part of the prompt before the user's description.
pub open spec fn prompt_head() -> Seq<char> {
    PROMPT_HEAD@
}

/// The part of the prompt after the user's description: the Lua API,
/// examples and rules.
pub open spec fn prompt_tail() -> Seq<char> {
    PROMPT_TAIL@
}

/// The prompt up to the user's description.
pub const PROMPT_HEAD: &'static str = r#"You are a code generator that creates Lua scripts for financial transaction transformation.

## Task
Generate a Lua script based on this user requirement:
"#;

/// The prompt after the user's description.
pub const PROMPT_TAIL: &'static str = r#"

## Lua API
You have access to a global `transaction` object with these fields and methods:

### Read-only fields:
- `transaction.id` - UUID as string
- `transaction.date` - Date as string  
- `transaction.amount` - Amount as string
- `transaction.currency` - Currency code as string

### Read-write fields:
- `transaction.description` - Transaction description (string)
- `transaction.counterparty` - The other party (string)

### Methods:
- `transaction:get_tag(key)` - Get tag value by key, returns string or nil
- `transaction:set_tag(key, value)` - Set a tag with key and value (both strings)
- `transaction:split()` - Create a copy of the transaction (without tags), returns new transaction object

### Return values:
- Return nothing (or no return statement) → modified `transaction` is used
- Return `nil` → transaction is dropped (filtered out)
- Return single transaction → that transaction is used
- Return `{tx1, tx2, ...}` → multiple transactions (table/array)

## Examples

### Example 1: Add tag based on description
User: "if description contains 'Walmart' then set category tag to 'Grocery'"
Lua:
if transaction.description:lower():match("walmart") then
    transaction:set_tag("category", "Grocery")
end

### Example 2: Modify description
User: "add prefix 'PROCESSED: ' to description"
Lua:
transaction.description = "PROCESSED: " .. transaction.description

### Example 3: Filter out transactions
User: "remove transactions with 'INTERNAL' in description"
Lua:
if transaction.description:match("INTERNAL") then
    return nil
end

### Example 4: Split transaction
User: "split transaction into two equal parts"
Lua:
local tx2 = transaction:split()
return {transaction, tx2}

## Rules
1. Return ONLY the Lua code, no explanations or markdown
2. Do not wrap in ```lua ... ``` blocks
3. Use proper Lua syntax (then/end, local variables, etc.)
4. Keep the code simple and efficient
5. Handle edge cases gracefully

Generate the Lua script now:"#;

/// The prompt that asks for a Lua script doing what `user_description`
/// says.
pub fn create_prompt(user_description: &str) -> (p: String)
    ensures
        p@ == prompt_head() + user_description@ + prompt_tail(),
{
    let mut p = PROMPT_HEAD.to_string();
    append_str(&mut p, user_description);
    append_str(&mut p, PROMPT_TAIL);
    p
}

/// Whether `s` ends with `suffix`.
pub open spec fn has_suffix(s: Seq<char>, suffix: Seq<char>) -> bool {
    suffix.len() <= s.len() && s.subrange(s.len() - suffix.len(), s.len() as int) == suffix
}

/// `s` without `prefix`, when it starts with it (`str::strip_prefix`).
pub open spec fn without_prefix(s: Seq<char>, prefix: Seq<char>) -> Seq<char> {
    if crate::text::has_prefix(s, prefix) {
        s.subrange(prefix.len() as int, s.len() as int)
    } else {
        s
    }
}

/// `s` without `suffix`, when it ends with it (`str::strip_suffix`).
pub open spec fn without_suffix(s: Seq<char>, suffix: Seq<char>) -> Seq<char> {
    if has_suffix(s, suffix) {
        s.subrange(0, s.len() - suffix.len())
    } else {
        s
    }
}

/// The script in a model's answer: trimmed, without a leading
/// `` ```lua `` or `` ``` `` and a trailing `` ``` ``, trimmed again.
pub open spec fn cleaned_lua_code(code: Seq<char>) -> Seq<char> {
    let fence = seq!['`', '`', '`'];
    let lua_fence = seq!['`', '`', '`', 'l', 'u', 'a'];
    trim(without_suffix(without_prefix(without_prefix(trim(code), lua_fence), fence), fence))
}

/// The characters `v[lo..hi]` without `prefix`, when they start with it.
fn drop_prefix(v: &Vec<char>, lo: usize, hi: usize, prefix: &Vec<char>) -> (r: usize)
    requires
        lo <= hi <= v@.len(),
    ensures
        lo <= r <= hi,
        v@.subrange(r as int, hi as int) == without_prefix(
            v@.subrange(lo as int, hi as int),
            prefix@,
        ),
{
    let ghost s = v@.subrange(lo as int, hi as int);
    if prefix.len() > hi - lo {
        return lo;
    }
    let mut i: usize = 0;
    while i < prefix.len()
        invariant
            prefix@.len() <= hi - lo,
            lo <= hi <= v@.len(),
            s == v@.subrange(lo as int, hi as int),
            i <= prefix@.len(),
            forall|k: int| 0 <= k < i ==> s[k] == prefix@[k],
        decreases prefix@.len() - i,
    {
        if v[lo + i] != prefix[i] {
            assert(s.subrange(0, prefix@.len() as int)[i as int] != prefix@[i as int]);
            return lo;
        }
        i = i + 1;
    }
    assert(s.subrange(0, prefix@.len() as int) =~= prefix@);
    assert(v@.subrange(lo + prefix@.len(), hi as int) =~= s.subrange(
        prefix@.len() as int,
        s.len() as int,
    ));
    lo + prefix.len()
}

/// The characters `v[lo..hi]` without `suffix`, when they end with it.
fn drop_suffix(v: &Vec<char>, lo: usize, hi: usize, suffix: &Vec<char>) -> (r: usize)
    requires
        lo <= hi <= v@.len(),
    ensures
        lo <= r <= hi,
        v@.subrange(lo as int, r as int) == without_suffix(
            v@.subrange(lo as int, hi as int),
            suffix@,
        ),
{
    let ghost s = v@.subrange(lo as int, hi as int);
    if suffix.len() > hi - lo {
        return hi;
    }
    let start = hi - suffix.len();
    let mut i: usize = 0;
    while i < suffix.len()
        invariant
            suffix@.len() <= hi - lo,
            start == hi - suffix@.len(),
            lo <= hi <= v@.len(),
            s == v@.subrange(lo as int, hi as int),
            i <= suffix@.len(),
            forall|k: int| 0 <= k < i ==> s[s.len() - suffix@.len() + k] == suffix@[k],
        decreases suffix@.len() - i,
    {
        if v[start + i] != suffix[i] {
            assert(s.subrange(s.len() - suffix@.len(), s.len() as int)[i as int]
                != suffix@[i as int]);
            return hi;
        }
        i = i + 1;
    }
    assert(s.subrange(s.len() - suffix@.len(), s.len() as int) =~= suffix@);
    assert(v@.subrange(lo as int, start as int) =~= s.subrange(0, s.len() - suffix@.len()));
    start
}

/// The script in a model's answer, without Markdown code fences.
pub fn clean_lua_code(code: &str) -> (r: String)
    ensures
        r@ == cleaned_lua_code(code@),
{
    let t = trimmed(code);
    let v = chars_of(t.as_str());
    let fence: Vec<char> = vec!['`', '`', '`'];
    let lua_fence: Vec<char> = vec!['`', '`', '`', 'l', 'u', 'a'];
    let n = v.len();
    assert(v@.subrange(0, n as int) =~= v@);
    let a = drop_prefix(&v, 0, n, &lua_fence);
    let b = drop_prefix(&v, a, n, &fence);
    let c = drop_suffix(&v, b, n, &fence);
    let inner = string_from_chars(v.as_slice(), b, c);
    assert(fence@ =~= seq!['`', '`', '`']);
    assert(lua_fence@ =~= seq!['`', '`', '`', 'l', 'u', 'a']);
    trimmed(inner.as_str())
}

/// Where the script of a transformer comes from on its next use.
#[derive(Debug, PartialEq)]
pub enum LuaCodeSource {
    /// The script the transformer already holds.
    Remembered(String),
    /// The script cached under the description, to be held from now on.
    Cached(String),
    /// None is known yet: one is generated, cached and held.
    Generate,
}

/// Picks the script of a transformer: the one it holds, else the one the
/// cache keeps under its description, else a new one.
pub fn lua_code_source(remembered: Option<String>, cache: &JsonFileMap, description: &str) -> (r:
    LuaCodeSource)
    ensures
        match remembered {
            Some(code) => r == LuaCodeSource::Remembered(code),
            None => if cache@.contains_key(description@) {
                r matches LuaCodeSource::Cached(code) && code@ == cache@[description@]
            } else {
                r is Generate
            },
        },
{
    match remembered {
        Some(code) => LuaCodeSource::Remembered(code),
        None => match cache.get(description) {
            Some(code) => LuaCodeSource::Cached(code.to_string()),
            None => LuaCodeSource::Generate,
        },
    }
}

} // verus!
