//! Writing records and collections as XML: a fixed order of fields, absent
//! optional fields left out, switches as `0` or `1`, and either no
//! whitespace at all or one element per line, indented by level.
use crate::flags::Flags;
use crate::named::{names_of, Named};
use crate::number::{decimal_text, push_decimal, push_signed, signed_text};
use crate::record::{Type, TypeModel};
use crate::types::{models, Types};
use crate::util::lemma_concat_assoc;
use crate::{XML_INDENT_CHAR, XML_INDENT_SIZE};
use vstd::prelude::*;

verus! {

/// `unit` repeated `n` times.
pub open spec fn repeated(unit: Seq<char>, n: nat) -> Seq<char>
    decreases n,
{
    if n == 0 {
        Seq::empty()
    } else {
        repeated(unit, (n - 1) as nat) + unit
    }
}

/// What stands before an element at depth `level`: nothing in compact
/// layout; a line break and the indentation unit `level` times otherwise.
pub open spec fn line_break(indent: Option<Seq<char>>, level: nat) -> Seq<char> {
    match indent {
        Some(unit) => seq!['\n'] + repeated(unit, level),
        None => Seq::empty(),
    }
}

/// The text of one character inside a double-quoted attribute value.
pub open spec fn escaped_char(c: char) -> Seq<char> {
    if c == '&' {
        seq!['&', 'a', 'm', 'p', ';']
    } else if c == '<' {
        seq!['&', 'l', 't', ';']
    } else if c == '>' {
        seq!['&', 'g', 't', ';']
    } else if c == '"' {
        seq!['&', 'q', 'u', 'o', 't', ';']
    } else {
        seq![c]
    }
}

/// `s` as the value of a double-quoted attribute.
pub open spec fn escaped(s: Seq<char>) -> Seq<char>
    decreases s.len(),
{
    if s.len() == 0 {
        Seq::empty()
    } else {
        escaped(s.drop_last()) + escaped_char(s.last())
    }
}

/// An element holding `text`, between its opening and closing tags.
pub open spec fn text_element(
    indent: Option<Seq<char>>,
    level: nat,
    open: Seq<char>,
    close: Seq<char>,
    text: Seq<char>,
) -> Seq<char> {
    line_break(indent, level) + open + text + close
}

/// An element holding a number where there is one, and nothing otherwise.
pub open spec fn optional_element(
    indent: Option<Seq<char>>,
    level: nat,
    open: Seq<char>,
    close: Seq<char>,
    text: Option<Seq<char>>,
) -> Seq<char> {
    match text {
        Some(t) => text_element(indent, level, open, close, t),
        None => Seq::empty(),
    }
}

/// The decimal text of an optional unsigned number.
pub open spec fn opt_decimal(v: Option<nat>) -> Option<Seq<char>> {
    match v {
        Some(n) => Some(decimal_text(n)),
        None => None,
    }
}

/// The decimal text of an optional signed number.
pub open spec fn opt_signed(v: Option<i64>) -> Option<Seq<char>> {
    match v {
        Some(n) => Some(signed_text(n as int)),
        None => None,
    }
}

/// A switch as an attribute value.
pub open spec fn bit(b: bool) -> Seq<char> {
    if b {
        "1"@
    } else {
        "0"@
    }
}

/// One switch as an attribute: `prefix` holds its name up to its value.
pub open spec fn flag_attribute(prefix: Seq<char>, b: bool) -> Seq<char> {
    prefix + bit(b) + "\""@
}

/// The element of the switches, all six as attributes.
pub open spec fn flags_xml(indent: Option<Seq<char>>, level: nat, f: Flags) -> Seq<char> {
    line_break(indent, level) + "<flags"@ + flag_attribute(" count_in_cargo=\""@, f.count_in_cargo)
        + flag_attribute(" count_in_hoarder=\""@, f.count_in_hoarder) + flag_attribute(
        " count_in_map=\""@,
        f.count_in_map,
    ) + flag_attribute(" count_in_player=\""@, f.count_in_player) + flag_attribute(
        " crafted=\""@,
        f.crafted,
    ) + flag_attribute(" deloot=\""@, f.deloot) + "/>"@
}

/// An empty element whose one attribute is a name; `open` holds the tag
/// and the attribute up to its value.
pub open spec fn reference_xml(
    indent: Option<Seq<char>>,
    level: nat,
    open: Seq<char>,
    name: Seq<char>,
) -> Seq<char> {
    line_break(indent, level) + open + escaped(name) + "\"/>"@
}

/// One such element for each name of a list, in order.
pub open spec fn references_xml(
    indent: Option<Seq<char>>,
    level: nat,
    open: Seq<char>,
    names: Seq<Seq<char>>,
) -> Seq<char>
    decreases names.len(),
{
    if names.len() == 0 {
        Seq::empty()
    } else {
        references_xml(indent, level, open, names.drop_last()) + reference_xml(
            indent,
            level,
            open,
            names.last(),
        )
    }
}

/// The elements for an optional list of names.
pub open spec fn optional_references_xml(
    indent: Option<Seq<char>>,
    level: nat,
    open: Seq<char>,
    names: Option<Seq<Seq<char>>>,
) -> Seq<char> {
    match names {
        Some(n) => references_xml(indent, level, open, n),
        None => Seq::empty(),
    }
}

/// The fields of a record, each a child element at depth `level`, in the
/// fixed order.
pub open spec fn fields_xml(indent: Option<Seq<char>>, level: nat, t: TypeModel) -> Seq<char> {
    optional_element(
        indent,
        level,
        "<nominal>"@,
        "</nominal>"@,
        opt_decimal(
            match t.nominal {
                Some(v) => Some(v as nat),
                None => None,
            },
        ),
    ) + text_element(indent, level, "<lifetime>"@, "</lifetime>"@, decimal_text(t.lifetime as nat))
        + optional_element(
        indent,
        level,
        "<restock>"@,
        "</restock>"@,
        opt_decimal(
            match t.restock {
                Some(v) => Some(v as nat),
                None => None,
            },
        ),
    ) + text_element(indent, level, "<min>"@, "</min>"@, decimal_text(t.min as nat))
        + optional_element(indent, level, "<quantmin>"@, "</quantmin>"@, opt_signed(t.quantmin))
        + text_element(indent, level, "<quantmax>"@, "</quantmax>"@, signed_text(t.quantmax as int))
        + optional_element(
        indent,
        level,
        "<cost>"@,
        "</cost>"@,
        opt_decimal(
            match t.cost {
                Some(v) => Some(v as nat),
                None => None,
            },
        ),
    ) + flags_xml(indent, level, t.flags) + match t.category {
        Some(n) => reference_xml(indent, level, "<category name=\""@, n),
        None => Seq::empty(),
    } + optional_references_xml(indent, level, "<usage name=\""@, t.usages)
        + optional_references_xml(indent, level, "<value name=\""@, t.values)
}

/// A record as an element at depth `level`.
pub open spec fn type_xml(indent: Option<Seq<char>>, level: nat, t: TypeModel) -> Seq<char> {
    "<type name=\""@ + escaped(t.name) + "\">"@ + fields_xml(indent, level + 1, t) + line_break(
        indent,
        level,
    ) + "</type>"@
}

/// The records of a collection, each at depth one.
pub open spec fn records_xml(indent: Option<Seq<char>>, ts: Seq<TypeModel>) -> Seq<char>
    decreases ts.len(),
{
    if ts.len() == 0 {
        Seq::empty()
    } else {
        records_xml(indent, ts.drop_last()) + line_break(indent, 1) + type_xml(indent, 1, ts.last())
    }
}

/// A collection as a document: the root element `types` holding a `type`
/// element for each record.
pub open spec fn types_xml(indent: Option<Seq<char>>, ts: Seq<TypeModel>) -> Seq<char> {
    if ts.len() == 0 {
        "<types/>"@
    } else {
        "<types>"@ + records_xml(indent, ts) + line_break(indent, 0) + "</types>"@
    }
}

/// The indentation unit in a view.
pub open spec fn indent_view(indent: Option<&str>) -> Option<Seq<char>> {
    match indent {
        Some(u) => Some(u@),
        None => None,
    }
}

fn push_line_break(out: &mut String, indent: Option<&str>, level: usize)
    ensures
        final(out)@ == old(out)@ + line_break(indent_view(indent), level as nat),
{
    match indent {
        Some(unit) => {
            out.append("\n");
            proof {
                reveal_strlit("\n");
                assert("\n"@ =~= seq!['\n']);
            }
            let ghost start = out@;
            let mut i: usize = 0;
            while i < level
                invariant
                    i <= level,
                    out@ == start + repeated(unit@, i as nat),
                decreases level - i,
            {
                out.append(unit);
                proof {
                    assert(out@ =~= start + repeated(unit@, (i + 1) as nat));
                }
                i = i + 1;
            }
            proof {
                assert(out@ =~= old(out)@ + line_break(indent_view(indent), level as nat));
            }
        },
        None => {
            proof {
                assert(out@ =~= old(out)@ + line_break(indent_view(indent), level as nat));
            }
        },
    }
}

fn push_escaped(out: &mut String, s: &str)
    ensures
        final(out)@ == old(out)@ + escaped(s@),
{
    let n = s.unicode_len();
    let ghost start = out@;
    let mut i: usize = 0;
    proof {
        reveal_strlit("&amp;");
        reveal_strlit("&lt;");
        reveal_strlit("&gt;");
        reveal_strlit("&quot;");
        assert("&amp;"@ =~= escaped_char('&'));
        assert("&lt;"@ =~= escaped_char('<'));
        assert("&gt;"@ =~= escaped_char('>'));
        assert("&quot;"@ =~= escaped_char('"'));
        assert(s@.subrange(0, 0) =~= Seq::<char>::empty());
    }
    while i < n
        invariant
            n == s@.len(),
            i <= n,
            out@ == start + escaped(s@.subrange(0, i as int)),
            "&amp;"@ == escaped_char('&'),
            "&lt;"@ == escaped_char('<'),
            "&gt;"@ == escaped_char('>'),
            "&quot;"@ == escaped_char('"'),
        decreases n - i,
    {
        let c = s.get_char(i);
        if c == '&' {
            out.append("&amp;");
        } else if c == '<' {
            out.append("&lt;");
        } else if c == '>' {
            out.append("&gt;");
        } else if c == '"' {
            out.append("&quot;");
        } else {
            out.append(s.substring_char(i, i + 1));
        }
        proof {
            let next = s@.subrange(0, i + 1);
            assert(next.drop_last() =~= s@.subrange(0, i as int));
            assert(out@ =~= start + escaped(next));
        }
        i = i + 1;
    }
    proof {
        assert(s@.subrange(0, n as int) =~= s@);
    }
}

fn push_unsigned_element(
    out: &mut String,
    indent: Option<&str>,
    level: usize,
    open: &str,
    close: &str,
    v: u64,
)
    ensures
        final(out)@ == old(out)@ + text_element(
            indent_view(indent),
            level as nat,
            open@,
            close@,
            decimal_text(v as nat),
        ),
{
    push_line_break(out, indent, level);
    out.append(open);
    push_decimal(out, v);
    out.append(close);
    proof {
        assert(out@ =~= old(out)@ + text_element(
            indent_view(indent),
            level as nat,
            open@,
            close@,
            decimal_text(v as nat),
        ));
    }
}

fn push_signed_element(out: &mut String, indent: Option<&str>, level: usize, open: &str, close: &str, v: i64)
    ensures
        final(out)@ == old(out)@ + text_element(
            indent_view(indent),
            level as nat,
            open@,
            close@,
            signed_text(v as int),
        ),
{
    push_line_break(out, indent, level);
    out.append(open);
    push_signed(out, v);
    out.append(close);
    proof {
        assert(out@ =~= old(out)@ + text_element(
            indent_view(indent),
            level as nat,
            open@,
            close@,
            signed_text(v as int),
        ));
    }
}

fn push_flag_attribute(out: &mut String, prefix: &str, b: bool)
    ensures
        final(out)@ == old(out)@ + flag_attribute(prefix@, b),
{
    out.append(prefix);
    if b {
        out.append("1");
    } else {
        out.append("0");
    }
    out.append("\"");
    proof {
        assert(out@ =~= old(out)@ + flag_attribute(prefix@, b));
    }
}

fn push_flags(out: &mut String, indent: Option<&str>, level: usize, f: Flags)
    ensures
        final(out)@ == old(out)@ + flags_xml(indent_view(indent), level as nat, f),
{
    let ghost s0 = out@;
    push_line_break(out, indent, level);
    let ghost mut acc = line_break(indent_view(indent), level as nat);
    out.append("<flags");
    proof {
        lemma_concat_assoc(s0, acc, "<flags"@);
        acc = acc + "<flags"@;
    }
    push_flag_attribute(out, " count_in_cargo=\"", f.count_in_cargo);
    proof {
        lemma_concat_assoc(s0, acc, flag_attribute(" count_in_cargo=\""@, f.count_in_cargo));
        acc = acc + flag_attribute(" count_in_cargo=\""@, f.count_in_cargo);
    }
    push_flag_attribute(out, " count_in_hoarder=\"", f.count_in_hoarder);
    proof {
        lemma_concat_assoc(s0, acc, flag_attribute(" count_in_hoarder=\""@, f.count_in_hoarder));
        acc = acc + flag_attribute(" count_in_hoarder=\""@, f.count_in_hoarder);
    }
    push_flag_attribute(out, " count_in_map=\"", f.count_in_map);
    proof {
        lemma_concat_assoc(s0, acc, flag_attribute(" count_in_map=\""@, f.count_in_map));
        acc = acc + flag_attribute(" count_in_map=\""@, f.count_in_map);
    }
    push_flag_attribute(out, " count_in_player=\"", f.count_in_player);
    proof {
        lemma_concat_assoc(s0, acc, flag_attribute(" count_in_player=\""@, f.count_in_player));
        acc = acc + flag_attribute(" count_in_player=\""@, f.count_in_player);
    }
    push_flag_attribute(out, " crafted=\"", f.crafted);
    proof {
        lemma_concat_assoc(s0, acc, flag_attribute(" crafted=\""@, f.crafted));
        acc = acc + flag_attribute(" crafted=\""@, f.crafted);
    }
    push_flag_attribute(out, " deloot=\"", f.deloot);
    proof {
        lemma_concat_assoc(s0, acc, flag_attribute(" deloot=\""@, f.deloot));
        acc = acc + flag_attribute(" deloot=\""@, f.deloot);
    }
    out.append("/>");
    proof {
        lemma_concat_assoc(s0, acc, "/>"@);
    }
}

fn push_reference(out: &mut String, indent: Option<&str>, level: usize, open: &str, name: &Named)
    ensures
        final(out)@ == old(out)@ + reference_xml(indent_view(indent), level as nat, open@, name@),
{
    push_line_break(out, indent, level);
    out.append(open);
    push_escaped(out, name.name());
    out.append("\"/>");
    proof {
        assert(out@ =~= old(out)@ + reference_xml(indent_view(indent), level as nat, open@, name@));
    }
}

fn push_references(out: &mut String, indent: Option<&str>, level: usize, open: &str, names: &[Named])
    ensures
        final(out)@ == old(out)@ + references_xml(
            indent_view(indent),
            level as nat,
            open@,
            names_of(names@),
        ),
{
    let ghost start = out@;
    let mut i: usize = 0;
    proof {
        assert(names_of(names@).subrange(0, 0) =~= Seq::<Seq<char>>::empty());
    }
    while i < names.len()
        invariant
            i <= names@.len(),
            out@ == start + references_xml(
                indent_view(indent),
                level as nat,
                open@,
                names_of(names@).subrange(0, i as int),
            ),
        decreases names@.len() - i,
    {
        push_reference(out, indent, level, open, &names[i]);
        proof {
            let next = names_of(names@).subrange(0, i + 1);
            assert(next.drop_last() =~= names_of(names@).subrange(0, i as int));
            assert(next.last() == names@[i as int]@);
            assert(out@ =~= start + references_xml(indent_view(indent), level as nat, open@, next));
        }
        i = i + 1;
    }
    proof {
        assert(names_of(names@).subrange(0, names@.len() as int) =~= names_of(names@));
    }
}

fn push_optional_unsigned(
    out: &mut String,
    indent: Option<&str>,
    level: usize,
    open: &str,
    close: &str,
    v: Option<u64>,
)
    ensures
        final(out)@ == old(out)@ + optional_element(
            indent_view(indent),
            level as nat,
            open@,
            close@,
            opt_decimal(
                match v {
                    Some(n) => Some(n as nat),
                    None => None,
                },
            ),
        ),
{
    match v {
        Some(n) => push_unsigned_element(out, indent, level, open, close, n),
        None => {
            proof {
                assert(out@ =~= old(out)@ + Seq::<char>::empty());
            }
        },
    }
}

fn push_optional_signed(
    out: &mut String,
    indent: Option<&str>,
    level: usize,
    open: &str,
    close: &str,
    v: Option<i64>,
)
    ensures
        final(out)@ == old(out)@ + optional_element(
            indent_view(indent),
            level as nat,
            open@,
            close@,
            opt_signed(v),
        ),
{
    match v {
        Some(n) => push_signed_element(out, indent, level, open, close, n),
        None => {
            proof {
                assert(out@ =~= old(out)@ + Seq::<char>::empty());
            }
        },
    }
}

fn push_category(out: &mut String, indent: Option<&str>, level: usize, category: Option<&Named>)
    ensures
        final(out)@ == old(out)@ + match category {
            Some(n) => reference_xml(indent_view(indent), level as nat, "<category name=\""@, n@),
            None => Seq::empty(),
        },
{
    match category {
        Some(n) => push_reference(out, indent, level, "<category name=\"", n),
        None => {
            proof {
                assert(out@ =~= old(out)@ + Seq::<char>::empty());
            }
        },
    }
}

fn push_optional_references(
    out: &mut String,
    indent: Option<&str>,
    level: usize,
    open: &str,
    names: Option<&[Named]>,
)
    ensures
        final(out)@ == old(out)@ + optional_references_xml(
            indent_view(indent),
            level as nat,
            open@,
            match names {
                Some(v) => Some(names_of(v@)),
                None => None,
            },
        ),
{
    match names {
        Some(v) => push_references(out, indent, level, open, v),
        None => {
            proof {
                assert(out@ =~= old(out)@ + Seq::<char>::empty());
            }
        },
    }
}

#[verifier::rlimit(100)]
fn push_fields(out: &mut String, indent: Option<&str>, level: usize, t: &Type)
    ensures
        final(out)@ == old(out)@ + fields_xml(indent_view(indent), level as nat, t@),
{
    let ghost ind = indent_view(indent);
    let ghost lv = level as nat;
    let ghost s0 = out@;
    let nominal = match t.nominal() {
        Some(v) => Some(v as u64),
        None => None,
    };
    push_optional_unsigned(out, indent, level, "<nominal>", "</nominal>", nominal);
    let ghost mut acc = optional_element(
        ind,
        lv,
        "<nominal>"@,
        "</nominal>"@,
        opt_decimal(
            match nominal {
                Some(n) => Some(n as nat),
                None => None,
            },
        ),
    );
    push_unsigned_element(out, indent, level, "<lifetime>", "</lifetime>", t.lifetime() as u64);
    proof {
        let piece = text_element(ind, lv, "<lifetime>"@, "</lifetime>"@, decimal_text(t@.lifetime as nat));
        lemma_concat_assoc(s0, acc, piece);
        acc = acc + piece;
    }
    let restock = match t.restock() {
        Some(v) => Some(v as u64),
        None => None,
    };
    push_optional_unsigned(out, indent, level, "<restock>", "</restock>", restock);
    proof {
        let piece = optional_element(
            ind,
            lv,
            "<restock>"@,
            "</restock>"@,
            opt_decimal(
                match restock {
                    Some(n) => Some(n as nat),
                    None => None,
                },
            ),
        );
        lemma_concat_assoc(s0, acc, piece);
        acc = acc + piece;
    }
    push_unsigned_element(out, indent, level, "<min>", "</min>", t.min() as u64);
    proof {
        let piece = text_element(ind, lv, "<min>"@, "</min>"@, decimal_text(t@.min as nat));
        lemma_concat_assoc(s0, acc, piece);
        acc = acc + piece;
    }
    push_optional_signed(out, indent, level, "<quantmin>", "</quantmin>", t.quantmin());
    proof {
        let piece = optional_element(ind, lv, "<quantmin>"@, "</quantmin>"@, opt_signed(t@.quantmin));
        lemma_concat_assoc(s0, acc, piece);
        acc = acc + piece;
    }
    push_signed_element(out, indent, level, "<quantmax>", "</quantmax>", t.quantmax());
    proof {
        let piece = text_element(ind, lv, "<quantmax>"@, "</quantmax>"@, signed_text(t@.quantmax as int));
        lemma_concat_assoc(s0, acc, piece);
        acc = acc + piece;
    }
    let cost = match t.cost() {
        Some(v) => Some(v as u64),
        None => None,
    };
    push_optional_unsigned(out, indent, level, "<cost>", "</cost>", cost);
    proof {
        let piece = optional_element(
            ind,
            lv,
            "<cost>"@,
            "</cost>"@,
            opt_decimal(
                match cost {
                    Some(n) => Some(n as nat),
                    None => None,
                },
            ),
        );
        lemma_concat_assoc(s0, acc, piece);
        acc = acc + piece;
    }
    push_flags(out, indent, level, t.flags());
    proof {
        let piece = flags_xml(ind, lv, t@.flags);
        lemma_concat_assoc(s0, acc, piece);
        acc = acc + piece;
    }
    let category = t.category();
    push_category(out, indent, level, category);
    proof {
        let piece = match category {
            Some(n) => reference_xml(ind, lv, "<category name=\""@, n@),
            None => Seq::empty(),
        };
        lemma_concat_assoc(s0, acc, piece);
        acc = acc + piece;
    }
    let usages = t.usages();
    push_optional_references(out, indent, level, "<usage name=\"", usages);
    proof {
        let piece = optional_references_xml(
            ind,
            lv,
            "<usage name=\""@,
            match usages {
                Some(v) => Some(names_of(v@)),
                None => None,
            },
        );
        lemma_concat_assoc(s0, acc, piece);
        acc = acc + piece;
    }
    let values = t.values();
    push_optional_references(out, indent, level, "<value name=\"", values);
    proof {
        let piece = optional_references_xml(
            ind,
            lv,
            "<value name=\""@,
            match values {
                Some(v) => Some(names_of(v@)),
                None => None,
            },
        );
        lemma_concat_assoc(s0, acc, piece);
        acc = acc + piece;
        assert(acc == fields_xml(ind, lv, t@));
    }
}

/// Appends `t` as an element at depth `level`.
fn push_type(out: &mut String, indent: Option<&str>, level: usize, t: &Type)
    requires
        level < usize::MAX,
    ensures
        final(out)@ == old(out)@ + type_xml(indent_view(indent), level as nat, t@),
{
    let ghost ind = indent_view(indent);
    out.append("<type name=\"");
    push_escaped(out, t.get_name());
    out.append("\">");
    proof {
        assert(out@ =~= old(out)@ + ("<type name=\""@ + escaped(t@.name) + "\">"@));
    }
    push_fields(out, indent, level + 1, t);
    proof {
        lemma_concat_assoc(old(out)@, "<type name=\""@ + escaped(t@.name) + "\">"@, fields_xml(ind, (level + 1) as nat, t@));
    }
    let ghost acc = "<type name=\""@ + escaped(t@.name) + "\">"@ + fields_xml(ind, (level + 1) as nat, t@);
    push_line_break(out, indent, level);
    proof {
        lemma_concat_assoc(old(out)@, acc, line_break(ind, level as nat));
    }
    let ghost acc2 = acc + line_break(ind, level as nat);
    out.append("</type>");
    proof {
        lemma_concat_assoc(old(out)@, acc2, "</type>"@);
    }
}

/// Appends a collection as a document.
fn push_types(out: &mut String, indent: Option<&str>, ts: &[Type])
    ensures
        final(out)@ == old(out)@ + types_xml(indent_view(indent), models(ts@)),
{
    let ghost ind = indent_view(indent);
    if ts.len() == 0 {
        out.append("<types/>");
        return;
    }
    out.append("<types>");
    let ghost start = out@;
    let mut i: usize = 0;
    proof {
        assert(models(ts@).subrange(0, 0) =~= Seq::<TypeModel>::empty());
    }
    while i < ts.len()
        invariant
            i <= ts@.len(),
            ind == indent_view(indent),
            out@ == start + records_xml(ind, models(ts@).subrange(0, i as int)),
        decreases ts@.len() - i,
    {
        push_line_break(out, indent, 1);
        push_type(out, indent, 1, &ts[i]);
        proof {
            let next = models(ts@).subrange(0, i + 1);
            assert(next.drop_last() =~= models(ts@).subrange(0, i as int));
            assert(next.last() == ts@[i as int]@);
            assert(out@ =~= start + records_xml(ind, next));
        }
        i = i + 1;
    }
    proof {
        assert(models(ts@).subrange(0, ts@.len() as int) =~= models(ts@));
    }
    push_line_break(out, indent, 0);
    out.append("</types>");
    proof {
        assert(out@ =~= old(out)@ + types_xml(ind, models(ts@)));
    }
}

/// The indentation unit: `indent_char` repeated `indent_size` times.
pub open spec fn indent_unit(indent_char: char, indent_size: usize) -> Seq<char> {
    repeated(seq![indent_char], indent_size as nat)
}

/// Relies on `String::from(char)`: a string of that one character.
#[verifier::external_body]
fn char_string(c: char) -> (r: String)
    ensures
        r@ == seq![c],
{
    String::from(c)
}

fn make_unit(indent_char: char, indent_size: usize) -> (r: String)
    ensures
        r@ == indent_unit(indent_char, indent_size),
{
    let one = char_string(indent_char);
    let mut unit = String::new();
    let mut i: usize = 0;
    while i < indent_size
        invariant
            i <= indent_size,
            one@ == seq![indent_char],
            unit@ == repeated(seq![indent_char], i as nat),
        decreases indent_size - i,
    {
        unit.append(one.as_str());
        i = i + 1;
    }
    unit
}

impl Type {
    /// This record as XML, with no whitespace.
    pub fn to_xml(&self) -> (r: String)
        ensures
            r@ == type_xml(None, 0, self@),
    {
        let mut out = String::new();
        push_type(&mut out, None, 0, self);
        out
    }

    /// This record as XML, one element per line, each level indented by
    /// `indent_char` repeated `indent_size` times.
    pub fn to_xml_pretty(&self, indent_char: char, indent_size: usize) -> (r: String)
        ensures
            r@ == type_xml(Some(indent_unit(indent_char, indent_size)), 0, self@),
    {
        let unit = make_unit(indent_char, indent_size);
        let mut out = String::new();
        push_type(&mut out, Some(unit.as_str()), 0, self);
        out
    }
}

impl Types {
    /// This collection as an XML document, with no whitespace.
    pub fn to_xml(&self) -> (r: String)
        ensures
            r@ == types_xml(None, self@),
    {
        let mut out = String::new();
        push_types(&mut out, None, self.types());
        out
    }

    /// This collection as an XML document, one element per line, each
    /// level indented by `indent_char` repeated `indent_size` times.
    pub fn to_xml_pretty(&self, indent_char: char, indent_size: usize) -> (r: String)
        ensures
            r@ == types_xml(Some(indent_unit(indent_char, indent_size)), self@),
    {
        let unit = make_unit(indent_char, indent_size);
        let mut out = String::new();
        push_types(&mut out, Some(unit.as_str()), self.types());
        out
    }
}

impl Types {
    /// This collection written for people: the XML document indented by
    /// `XML_INDENT_SIZE` times `XML_INDENT_CHAR` per level.
    pub fn to_string(&self) -> (r: String)
        ensures
            r@ == types_xml(Some(indent_unit(XML_INDENT_CHAR, XML_INDENT_SIZE)), self@),
    {
        self.to_xml_pretty(XML_INDENT_CHAR, XML_INDENT_SIZE)
    }
}

} // verus!
