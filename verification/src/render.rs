//! Writing values into the text of a nix build file.

use vstd::prelude::*;
use vstd::string::StringExecFns;
use crate::target_cfg::{members, Cfg, CfgExpr, CfgExprView};
use crate::bindings::push_char;
use crate::text::{chars_of, has_prefix, skip_chars, starts_with};

verus! {

/// Whether the character at position `i` has to be escaped in a nix
/// string: a backslash, a double quote, and a dollar sign before an
/// opening brace.
pub open spec fn needs_escape(s: Seq<char>, i: int) -> bool {
    s[i] == '\\' || s[i] == '"' || (s[i] == '$' && i + 1 < s.len() && s[i + 1] == '{')
}

/// The first `n` characters of `s`, each that needs it with a backslash before it.
pub open spec fn escaped_upto(s: Seq<char>, n: int) -> Seq<char>
    decreases n,
{
    if n <= 0 {
        Seq::empty()
    } else if needs_escape(s, n - 1) {
        escaped_upto(s, n - 1).push('\\').push(s[n - 1])
    } else {
        escaped_upto(s, n - 1).push(s[n - 1])
    }
}

/// `s` as a nix string: in double quotes, with what needs it escaped.
pub open spec fn escaped(s: Seq<char>) -> Seq<char> {
    seq!['"'] + escaped_upto(s, s.len() as int) + seq!['"']
}

/// Escapes a string as a nix string.
pub fn escape_nix_string(raw_string: &str) -> (r: String)
    ensures
        r@ == escaped(raw_string@),
{
    let v = chars_of(raw_string);
    let mut ret = String::new();
    push_char(&mut ret, '"');
    let mut i: usize = 0;
    assert(ret@ =~= seq!['"'] + escaped_upto(v@, 0));
    while i < v.len()
        invariant
            i <= v.len(),
            ret@ == seq!['"'] + escaped_upto(v@, i as int),
        decreases v.len() - i,
    {
        let c = v[i];
        let ghost before = ret@;
        if c == '\\' || c == '"' || (c == '$' && i + 1 < v.len() && v[i + 1] == '{') {
            push_char(&mut ret, '\\');
            push_char(&mut ret, c);
            assert(ret@ =~= seq!['"'] + escaped_upto(v@, i as int).push('\\').push(c));
        } else {
            push_char(&mut ret, c);
            assert(ret@ =~= seq!['"'] + escaped_upto(v@, i as int).push(c));
        }
        i = i + 1;
    }
    push_char(&mut ret, '"');
    assert(ret@ =~= escaped(v@));
    ret
}

/// The name of a platform fact as the build file spells it: without a
/// leading `target_`, as a nix string.
pub open spec fn target_name(name: Seq<char>) -> Seq<char> {
    if has_prefix(name, "target_"@) {
        escaped(name.skip("target_"@.len() as int))
    } else {
        escaped(name)
    }
}

/// A condition as a nix expression. A name asks the platform's facts; the
/// key `feature` asks the activated features; another key compares a fact
/// of the platform; `not`, `all` and `any` are written with `!`, `&&` and
/// `||`, each in parentheses of its own.
pub open spec fn nix_expr(e: CfgExprView) -> Seq<char>
    decreases e,
{
    match e {
        CfgExprView::Name(name) => "target."@ + target_name(name),
        CfgExprView::KeyPair(key, value) => if key == "feature"@ {
            "(builtins.elem "@ + escaped(value) + " resolvedDefaultFeatures)"@
        } else {
            "(target."@ + target_name(key) + " == "@ + escaped(value) + ")"@
        },
        CfgExprView::Not(inner) => "(!"@ + nix_expr(*inner) + ")"@,
        CfgExprView::All(list) => "("@ + joined(list, " && "@, list.len() as int) + ")"@,
        CfgExprView::Any(list) => "("@ + joined(list, " || "@, list.len() as int) + ")"@,
    }
}

/// The first `n` conditions of a list as nix expressions, with `operator` between them.
pub open spec fn joined(list: Seq<CfgExprView>, operator: Seq<char>, n: int) -> Seq<char>
    decreases list, n,
{
    if n <= 0 || n > list.len() {
        Seq::empty()
    } else if n == 1 {
        nix_expr(list[0])
    } else {
        joined(list, operator, n - 1) + operator + nix_expr(list[n - 1])
    }
}

/// The name of a platform fact as the build file spells it.
fn target(target_name_text: &str) -> (r: String)
    ensures
        r@ == target_name(target_name_text@),
{
    if starts_with(target_name_text, "target_") {
        let rest = skip_chars(target_name_text, "target_".unicode_len());
        escape_nix_string(rest.as_str())
    } else {
        escape_nix_string(target_name_text)
    }
}

/// Appends the members of an `all` or an `any` with an operator between them.
#[verifier::loop_isolation(false)]
fn render_list(result: &mut String, cfg: &CfgExpr, operator: &str)
    requires
        cfg@.wf(),
        cfg is All || cfg is Any,
    ensures
        final(result)@ == old(result)@ + joined(members(cfg@), operator@, members(cfg@).len() as int),
    decreases cfg, 0nat,
{
    let ghost start = result@;
    let ghost all = members(cfg@);
    let list = match cfg {
        CfgExpr::All(list) => list,
        CfgExpr::Any(list) => list,
        _ => {
            return ;
        },
    };
    assert(all.len() == list.len());
    assert forall|k: int| 0 <= k < list.len() implies all[k] == (#[trigger] list[k])@ && list[k]@.wf() by {
        assert(all[k].wf());
    }
    render(result, &list[0]);
    let mut i: usize = 1;
    while i < list.len()
        invariant
            1 <= i <= list.len(),
            all.len() == list.len(),
            cfg == CfgExpr::All(*list) || cfg == CfgExpr::Any(*list),
            forall|k: int| 0 <= k < list.len() ==> all[k] == (#[trigger] list[k])@ && list[k]@.wf(),
            result@ == start + joined(all, operator@, i as int),
        decreases list.len() - i,
    {
        result.append(operator);
        render(result, &list[i]);
        proof {
            assert(result@ =~= start + (joined(all, operator@, i as int) + operator@ + nix_expr(all[i as int])));
        }
        i = i + 1;
    }
}

/// Appends a condition as a nix expression.
fn render(result: &mut String, cfg: &CfgExpr)
    requires
        cfg@.wf(),
    ensures
        final(result)@ == old(result)@ + nix_expr(cfg@),
    decreases cfg, 1nat,
{
    let ghost start = result@;
    match cfg {
        CfgExpr::Value(Cfg::Name(name)) => {
            result.append("target.");
            result.append(target(name.as_str()).as_str());
            assert(result@ =~= start + nix_expr(cfg@));
        },
        CfgExpr::Value(Cfg::KeyPair(key, value)) => {
            let escaped_value = escape_nix_string(value.as_str());
            if crate::text::same_text(key.as_str(), "feature") {
                result.append("(builtins.elem ");
                result.append(escaped_value.as_str());
                result.append(" resolvedDefaultFeatures)");
            } else {
                result.append("(target.");
                result.append(target(key.as_str()).as_str());
                result.append(" == ");
                result.append(escaped_value.as_str());
                result.append(")");
            }
            assert(result@ =~= start + nix_expr(cfg@));
        },
        CfgExpr::Not(expr) => {
            result.append("(!");
            render(result, expr);
            result.append(")");
            assert(result@ =~= start + nix_expr(cfg@));
        },
        CfgExpr::All(_) => {
            result.append("(");
            render_list(result, cfg, " && ");
            result.append(")");
            assert(result@ =~= start + nix_expr(cfg@));
        },
        CfgExpr::Any(_) => {
            result.append("(");
            render_list(result, cfg, " || ");
            result.append(")");
            assert(result@ =~= start + nix_expr(cfg@));
        },
    }
}

/// Writes a condition as nix code.
pub fn cfg_to_nix_expr(cfg: &CfgExpr) -> (r: String)
    requires
        cfg@.wf(),
    ensures
        r@ == nix_expr(cfg@),
{
    let mut ret = String::new();
    render(&mut ret, cfg);
    assert(ret@ =~= nix_expr(cfg@));
    ret
}


/// The nix expression for the condition under which a dependency applies.
/// A text of the form `cfg(..)` is read as a condition; a text that spells
/// none gives nothing. Every other text is taken as the name of a
/// platform, which the expression compares with the platform built for.
pub open spec fn target_condition(key: Seq<char>) -> Option<Seq<char>> {
    if has_prefix(key, "cfg("@) && crate::text::has_suffix(key, ")"@) {
        match crate::target_cfg::parsed(key.subrange("cfg("@.len() as int, key.len() - ")"@.len())) {
            Some(e) => Some(nix_expr(e)),
            None => None,
        }
    } else {
        Some("(stdenv.hostPlatform.config == "@ + escaped(key) + ")"@)
    }
}

/// Writes the condition under which a dependency applies as nix code.
pub fn cfg_to_nix_expr_filter(key: &str) -> (r: Result<String, crate::target_cfg::MalformedExpression>)
    ensures
        r is Ok <==> target_condition(key@) is Some,
        r matches Ok(text) ==> Some(text@) == target_condition(key@),
{
    if starts_with(key, "cfg(") && crate::text::ends_with(key, ")") {
        let v = chars_of(key);
        proof {
            reveal_strlit("cfg(");
            reveal_strlit(")");
            assert(v@.take(4)[3] == '(');
            assert(v@.skip(v.len() - 1)[0] == ')');
        }
        let cfg = crate::text::string_of_range(&v, 4, v.len() - 1);
        match CfgExpr::from_str(cfg.as_str()) {
            Ok(expr) => Ok(cfg_to_nix_expr(&expr)),
            Err(e) => Err(e),
        }
    } else {
        let mut condition = String::from_str("(stdenv.hostPlatform.config == ");
        condition.append(escape_nix_string(key).as_str());
        condition.append(")");
        Ok(condition)
    }
}

} // verus!
