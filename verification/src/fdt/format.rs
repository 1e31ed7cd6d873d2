//! Rendering a blob as device tree source text.

use super::node::{node_children, FdtNode};
use super::property::{node_props, value_as_str_list, FdtProperty, RawProperty};
use super::{hdr_off_mem_rsvmap, node_name, reservations_from, root_offset, Fdt};
use crate::bytes::{be_u32, read_be_u32};
use crate::text::{hex_text, hex_text_wide, push_hex, push_hex_wide, push_spaces, spaces};
use crate::error::{Fault, FdtError, FdtErrorKind};
use vstd::prelude::*;
use vstd::string::StringExecFns;

verus! {

/// Whether `v` holds nothing but printable ASCII, spaces and zero bytes.
pub open spec fn is_printable(v: Seq<u8>) -> bool {
    forall|i: int| 0 <= i < v.len() ==> printable_byte(#[trigger] v[i])
}

/// Whether `b` is printable ASCII, a space or a zero byte.
pub open spec fn printable_byte(b: u8) -> bool {
    (0x21 <= b <= 0x7e) || b == 0x20 || b == 0
}

/// Whether two zero bytes follow each other in `v`.
pub open spec fn has_empty_string(v: Seq<u8>) -> bool {
    exists|i: int| 0 <= i < v.len() - 1 && #[trigger] v[i] == 0 && v[i + 1] == 0
}

/// Whether `v` is rendered as strings: it is printable, ends with a zero
/// byte, holds no empty string, and reads as a list of strings.
pub open spec fn looks_like_strings(v: Seq<u8>) -> bool {
    is_printable(v) && v.len() > 0 && v.last() == 0 && !has_empty_string(v) && value_as_str_list(
        v,
    ).len() > 0
}

/// The strings of `list` from position `at` on, quoted and separated by
/// commas.
pub open spec fn strings_text(list: Seq<Seq<char>>, at: int) -> Seq<char>
    decreases list.len() - at,
{
    if at < 0 || at >= list.len() {
        Seq::empty()
    } else {
        (if at == 0 {
            " = \""@
        } else {
            ", \""@
        }) + list[at] + "\""@ + strings_text(list, at + 1)
    }
}

/// The 32-bit cells of `v` from offset `at` on, in hexadecimal notation
/// and separated by spaces.
pub open spec fn cells_text(v: Seq<u8>, at: int) -> Seq<char>
    decreases v.len() - at,
{
    if at < 0 || at + 4 > v.len() {
        Seq::empty()
    } else {
        (if at == 0 {
            "0x"@
        } else {
            " 0x"@
        }) + hex_text_wide(be_u32(v, at) as nat) + cells_text(v, at + 4)
    }
}

/// The bytes of `v` from offset `at` on, in hexadecimal notation and
/// separated by spaces.
pub open spec fn bytes_text(v: Seq<u8>, at: int) -> Seq<char>
    decreases v.len() - at,
{
    if at < 0 || at >= v.len() {
        Seq::empty()
    } else {
        (if at == 0 {
            ""@
        } else {
            " "@
        }) + hex_text_wide(v[at] as nat) + bytes_text(v, at + 1)
    }
}

/// The value `v` as it is rendered after the name of its property: nothing
/// for an empty value, else strings, cells or bytes, whichever comes first
/// in that order and fits.
pub open spec fn value_text(v: Seq<u8>) -> Seq<char> {
    if v.len() == 0 {
        Seq::empty()
    } else if looks_like_strings(v) {
        strings_text(value_as_str_list(v), 0)
    } else if v.len() % 4 == 0 {
        " = <"@ + cells_text(v, 0) + ">"@
    } else {
        " = ["@ + bytes_text(v, 0) + "]"@
    }
}

/// The line that renders a property.
pub open spec fn property_text(name: Seq<char>, value: Seq<u8>, indent: nat) -> Seq<char> {
    spaces(indent) + name + value_text(value) + ";\n"@
}

/// The lines that render the items of an iteration over properties from
/// position `at` on.
pub open spec fn props_text(items: Seq<Result<RawProperty, Fault>>, at: int, indent: nat) -> Seq<
    char,
>
    decreases items.len() - at,
{
    if at < 0 || at >= items.len() {
        Seq::empty()
    } else {
        (match items[at] {
            Ok(p) => property_text(p.name, p.value, indent),
            Err(_) => "<Error reading property>\n"@,
        }) + props_text(items, at + 1, indent)
    }
}

/// The lines that render the node at `off` with all below it. A name that
/// cannot be read is an error; a property or a child that cannot be read is
/// rendered as a remark.
#[verifier::opaque]
pub open spec fn node_text(b: Seq<u8>, off: int, indent: nat) -> Result<Seq<char>, Fault>
    decreases b.len() - off, 0nat, 0nat,
{
    if off < 0 || off + 4 > b.len() {
        Err(Fault { kind: FdtErrorKind::InvalidOffset, offset: off })
    } else {
        match node_name(b, off) {
            Err(f) => Err(f),
            Ok(name) => match children_text(
                b,
                node_children(b, off),
                0,
                off,
                indent + 4,
                node_props(b, off).len() > 0,
            ) {
                Err(f) => Err(f),
                Ok(below) => Ok(
                    spaces(indent) + (if name.len() == 0 {
                        "/"@
                    } else {
                        name
                    }) + " {\n"@ + props_text(node_props(b, off), 0, indent + 4) + below + spaces(
                        indent,
                    ) + "};\n"@,
                ),
            },
        }
    }
}

/// The line that parts a child from what stands before it in its parent:
/// an empty line, but nothing before a first child that no property
/// precedes.
pub open spec fn child_gap(at: int, after_properties: bool) -> Seq<char> {
    if at == 0 && !after_properties {
        ""@
    } else {
        "\n"@
    }
}

/// The lines that render the items of an iteration over the children of
/// the node at `parent` from position `at` on, each parted from what
/// stands before it.
#[verifier::opaque]
pub open spec fn children_text(
    b: Seq<u8>,
    items: Seq<Result<int, Fault>>,
    at: int,
    parent: int,
    indent: nat,
    after_properties: bool,
) -> Result<Seq<char>, Fault>
    decreases b.len() - parent - 1, 1nat, items.len() - at,
{
    if at < 0 || at >= items.len() {
        Ok(Seq::empty())
    } else {
        match items[at] {
            Err(_) => match children_text(b, items, at + 1, parent, indent, after_properties) {
                Err(f) => Err(f),
                Ok(rest) => Ok(
                    child_gap(at, after_properties) + "<Error reading child node>\n"@ + rest,
                ),
            },
            Ok(off) => if off <= parent || off + 4 > b.len() {
                Err(Fault { kind: FdtErrorKind::InvalidOffset, offset: off })
            } else {
                match node_text(b, off, indent) {
                    Err(f) => Err(f),
                    Ok(text) => match children_text(
                        b,
                        items,
                        at + 1,
                        parent,
                        indent,
                        after_properties,
                    ) {
                        Err(f) => Err(f),
                        Ok(rest) => Ok(child_gap(at, after_properties) + text + rest),
                    },
                }
            },
        }
    }
}

/// The lines that render the memory reservations `rs` from position `at`
/// on.
pub open spec fn reservations_text(rs: Seq<(u64, u64)>, at: int) -> Seq<char>
    decreases rs.len() - at,
{
    if at < 0 || at >= rs.len() {
        Seq::empty()
    } else {
        "/memreserve/ 0x"@ + hex_text(rs[at].0 as nat) + " 0x"@ + hex_text(rs[at].1 as nat)
            + ";\n"@ + reservations_text(rs, at + 1)
    }
}

/// The source text of the blob `b`: the version line, the memory
/// reservations, an empty line and the tree.
pub open spec fn blob_text(b: Seq<u8>) -> Result<Seq<char>, Fault> {
    match root_offset(b) {
        Err(f) => Err(f),
        Ok(root) => match node_text(b, root, 0) {
            Err(f) => Err(f),
            Ok(tree) => Ok(
                "/dts-v1/;\n"@ + reservations_text(
                    reservations_from(b, hdr_off_mem_rsvmap(b) as int),
                    0,
                ) + "\n"@ + tree,
            ),
        },
    }
}

/// Whether `value` holds nothing but printable ASCII, spaces and zero
/// bytes.
pub fn check_printable(value: &[u8]) -> (r: bool)
    ensures
        r == is_printable(value@),
{
    let mut i: usize = 0;
    while i < value.len()
        invariant
            i <= value@.len(),
            forall|k: int| 0 <= k < i ==> printable_byte(#[trigger] value@[k]),
        decreases value@.len() - i,
    {
        let b = value[i];
        if !((0x21 <= b && b <= 0x7e) || b == 0x20 || b == 0) {
            return false;
        }
        i += 1;
    }
    true
}

/// Whether two zero bytes follow each other in `value`.
pub fn check_empty_string(value: &[u8]) -> (r: bool)
    ensures
        r == has_empty_string(value@),
{
    if value.len() < 2 {
        return false;
    }
    let mut i: usize = 0;
    while i < value.len() - 1
        invariant
            value@.len() >= 2,
            i <= value@.len() - 1,
            forall|k: int| 0 <= k < i ==> !(#[trigger] value@[k] == 0 && value@[k + 1] == 0),
        decreases value@.len() - i,
    {
        if value[i] == 0 && value[i + 1] == 0 {
            return true;
        }
        i += 1;
    }
    false
}

impl<'a> FdtProperty<'a> {
    /// Appends the strings of the value, quoted and separated by commas;
    /// says whether there was one.
    fn fmt_strings(&self, f: &mut String) -> (r: bool)
        ensures
            r == (value_as_str_list(self@.value).len() > 0),
            final(f)@ == old(f)@ + strings_text(value_as_str_list(self@.value), 0),
    {
        let ghost list = value_as_str_list(self@.value);
        let mut strings = self.as_str_list();
        let ghost mut at: int = 0;
        assert(list.skip(0) =~= list);
        assert(f@ =~= old(f)@ + Seq::<char>::empty());
        let mut any = false;
        loop
            invariant
                0 <= at <= list.len(),
                strings.remaining() == list.skip(at),
                any == (at > 0),
                f@ + strings_text(list, at) == old(f)@ + strings_text(list, 0),
            ensures
                any == (list.len() > 0),
                f@ == old(f)@ + strings_text(list, 0),
            decreases list.len() - at,
        {
            let ghost before = f@;
            match strings.next() {
                None => {
                    assert(f@ + Seq::<char>::empty() =~= f@);
                    break ;
                },
                Some(s) => {
                    if any {
                        f.append(", \"");
                    } else {
                        f.append(" = \"");
                    }
                    f.append(s);
                    f.append("\"");
                    proof {
                        assert(list.skip(at)[0] == list[at]);
                        assert(list.skip(at).skip(1) =~= list.skip(at + 1));
                        let head = (if at == 0 {
                            " = \""@
                        } else {
                            ", \""@
                        }) + list[at] + "\""@;
                        assert(f@ =~= before + head);
                        assert(f@ + strings_text(list, at + 1) =~= before + strings_text(list, at));
                        at = at + 1;
                    }
                    any = true;
                },
            }
        }
        any
    }

    /// Appends the 32-bit cells of the value in hexadecimal notation.
    fn fmt_cells(&self, f: &mut String)
        requires
            self@.value.len() % 4 == 0,
        ensures
            final(f)@ == old(f)@ + cells_text(self@.value, 0),
    {
        let value = self.value();
        let len = value.len();
        let mut at: usize = 0;
        assert(f@ =~= old(f)@ + Seq::<char>::empty());
        while at < len
            invariant
                value@ == self@.value,
                len == value@.len(),
                len % 4 == 0,
                at % 4 == 0,
                at <= len,
                f@ + cells_text(value@, at as int) == old(f)@ + cells_text(value@, 0),
            decreases len - at,
        {
            let ghost before = f@;
            if at == 0 {
                f.append("0x");
            } else {
                f.append(" 0x");
            }
            let cell = read_be_u32(value, at).unwrap();
            push_hex_wide(f, cell as u64);
            proof {
                let head = (if at == 0 {
                    "0x"@
                } else {
                    " 0x"@
                }) + hex_text_wide(cell as nat);
                assert(f@ =~= before + head);
                assert(f@ + cells_text(value@, at + 4) =~= before + cells_text(value@, at as int));
            }
            at = at + 4;
        }
        assert(f@ + Seq::<char>::empty() =~= f@);
    }

    /// Appends the bytes of the value in hexadecimal notation.
    fn fmt_bytes(&self, f: &mut String)
        ensures
            final(f)@ == old(f)@ + bytes_text(self@.value, 0),
    {
        let value = self.value();
        let len = value.len();
        let mut at: usize = 0;
        assert(f@ =~= old(f)@ + Seq::<char>::empty());
        while at < len
            invariant
                value@ == self@.value,
                len == value@.len(),
                at <= len,
                f@ + bytes_text(value@, at as int) == old(f)@ + bytes_text(value@, 0),
            decreases len - at,
        {
            let ghost before = f@;
            if at == 0 {
                f.append("");
            } else {
                f.append(" ");
            }
            push_hex_wide(f, value[at] as u64);
            proof {
                let head = (if at == 0 {
                    ""@
                } else {
                    " "@
                }) + hex_text_wide(value@[at as int] as nat);
                assert(f@ =~= before + head);
                assert(f@ + bytes_text(value@, at + 1) =~= before + bytes_text(value@, at as int));
            }
            at = at + 1;
        }
        assert(f@ + Seq::<char>::empty() =~= f@);
    }

    /// Appends the value as it is rendered after the name.
    fn fmt_value(&self, f: &mut String)
        ensures
            final(f)@ == old(f)@ + value_text(self@.value),
    {
        let value = self.value();
        let len = value.len();
        if len == 0 {
            assert(f@ =~= old(f)@ + Seq::<char>::empty());
            return ;
        }
        if check_printable(value) && value[len - 1] == 0 && !check_empty_string(value) {
            let mut text = String::new();
            if self.fmt_strings(&mut text) {
                f.append(text.as_str());
                assert(text@ =~= strings_text(value_as_str_list(self@.value), 0));
                return ;
            }
        }
        if len % 4 == 0 {
            f.append(" = <");
            self.fmt_cells(f);
            f.append(">");
            assert(f@ =~= old(f)@ + (" = <"@ + cells_text(self@.value, 0) + ">"@));
        } else {
            f.append(" = [");
            self.fmt_bytes(f);
            f.append("]");
            assert(f@ =~= old(f)@ + (" = ["@ + bytes_text(self@.value, 0) + "]"@));
        }
    }

    /// Appends the line that renders the property.
    pub fn fmt(&self, f: &mut String, indent: usize)
        ensures
            final(f)@ == old(f)@ + property_text(self@.name, self@.value, indent as nat),
    {
        push_spaces(f, indent);
        f.append(self.name());
        self.fmt_value(f);
        f.append(";\n");
        assert(f@ =~= old(f)@ + property_text(self@.name, self@.value, indent as nat));
    }
}

/// The source text of the bytes `b`, which have to pass the header checks
/// first.
pub open spec fn source_text(b: Seq<u8>) -> Result<Seq<char>, Fault> {
    match super::header_fault(b) {
        Some(f) => Err(f),
        None => blob_text(b),
    }
}

/// What `children_text` is, one step unfolded.
pub proof fn lemma_children_text_unfold(
    b: Seq<u8>,
    items: Seq<Result<int, Fault>>,
    at: int,
    parent: int,
    indent: nat,
    after_properties: bool,
)
    requires
        0 <= at,
    ensures
        children_text(b, items, at, parent, indent, after_properties) == if at >= items.len() {
            Ok::<Seq<char>, Fault>(Seq::empty())
        } else {
            match items[at] {
                Err(_) => match children_text(
                    b,
                    items,
                    at + 1,
                    parent,
                    indent,
                    after_properties,
                ) {
                    Err(f) => Err(f),
                    Ok(rest) => Ok(
                        child_gap(at, after_properties) + "<Error reading child node>\n"@ + rest,
                    ),
                },
                Ok(off) => if off <= parent || off + 4 > b.len() {
                    Err(Fault { kind: FdtErrorKind::InvalidOffset, offset: off })
                } else {
                    match node_text(b, off, indent) {
                        Err(f) => Err(f),
                        Ok(text) => match children_text(
                            b,
                            items,
                            at + 1,
                            parent,
                            indent,
                            after_properties,
                        ) {
                            Err(f) => Err(f),
                            Ok(rest) => Ok(child_gap(at, after_properties) + text + rest),
                        },
                    }
                },
            }
        },
{
    reveal_with_fuel(node_text, 2);
    reveal_with_fuel(children_text, 2);
}

/// What is left of the text of children once `written` stands for those
/// before position `at`: the whole text, or the error that ends it.
pub open spec fn children_text_left(
    b: Seq<u8>,
    items: Seq<Result<int, Fault>>,
    at: int,
    parent: int,
    indent: nat,
    after_properties: bool,
    written: Seq<char>,
) -> Result<Seq<char>, Fault> {
    match children_text(b, items, at, parent, indent, after_properties) {
        Err(e) => Err(e),
        Ok(rest) => Ok(written + rest),
    }
}

/// A child that is rendered as `text` adds its gap and `text` to what is
/// written.
pub proof fn lemma_children_text_step(
    b: Seq<u8>,
    items: Seq<Result<int, Fault>>,
    at: int,
    parent: int,
    indent: nat,
    after_properties: bool,
    written: Seq<char>,
    text: Seq<char>,
)
    requires
        0 <= at < items.len(),
        match items[at] {
            Err(_) => text == "<Error reading child node>\n"@,
            Ok(off) => parent < off && off + 4 <= b.len() && node_text(b, off, indent) == Ok::<
                Seq<char>,
                Fault,
            >(text),
        },
    ensures
        children_text_left(b, items, at, parent, indent, after_properties, written)
            == children_text_left(
            b,
            items,
            at + 1,
            parent,
            indent,
            after_properties,
            written + (child_gap(at, after_properties) + text),
        ),
{
    lemma_children_text_unfold(b, items, at, parent, indent, after_properties);
    match children_text(b, items, at + 1, parent, indent, after_properties) {
        Err(_) => {},
        Ok(rest) => {
            let gap = child_gap(at, after_properties);
            assert(written + (gap + text + rest) =~= (written + (gap + text)) + rest);
        },
    }
}

/// A child that cannot be rendered ends the text with its error.
pub proof fn lemma_children_text_fail(
    b: Seq<u8>,
    items: Seq<Result<int, Fault>>,
    at: int,
    parent: int,
    indent: nat,
    after_properties: bool,
    written: Seq<char>,
    fault: Fault,
)
    requires
        0 <= at < items.len(),
        items[at] matches Ok(off) && parent < off && off + 4 <= b.len() && node_text(
            b,
            off,
            indent,
        ) == Err::<Seq<char>, Fault>(fault),
    ensures
        children_text_left(b, items, at, parent, indent, after_properties, written) == Err::<
            Seq<char>,
            Fault,
        >(fault),
{
    lemma_children_text_unfold(b, items, at, parent, indent, after_properties);
}

/// Where no child is left, what is written is the whole text.
pub proof fn lemma_children_text_done(
    b: Seq<u8>,
    items: Seq<Result<int, Fault>>,
    at: int,
    parent: int,
    indent: nat,
    after_properties: bool,
    written: Seq<char>,
)
    requires
        0 <= items.len() <= at,
    ensures
        children_text_left(b, items, at, parent, indent, after_properties, written) == Ok::<
            Seq<char>,
            Fault,
        >(written),
{
    lemma_children_text_unfold(b, items, at, parent, indent, after_properties);
    assert(written + Seq::<char>::empty() =~= written);
}

/// What `node_text` is, one step unfolded.
pub proof fn lemma_node_text_unfold(b: Seq<u8>, off: int, indent: nat)
    requires
        0 <= off,
        off + 4 <= b.len(),
    ensures
        node_text(b, off, indent) == match node_name(b, off) {
            Err(f) => Err::<Seq<char>, Fault>(f),
            Ok(name) => match children_text(
                b,
                node_children(b, off),
                0,
                off,
                indent + 4,
                node_props(b, off).len() > 0,
            ) {
                Err(f) => Err(f),
                Ok(below) => Ok(
                    spaces(indent) + (if name.len() == 0 {
                        "/"@
                    } else {
                        name
                    }) + " {\n"@ + props_text(node_props(b, off), 0, indent + 4) + below + spaces(
                        indent,
                    ) + "};\n"@,
                ),
            },
        },
{
    reveal_with_fuel(node_text, 2);
    reveal_with_fuel(children_text, 2);
}

impl<'a> FdtNode<'a> {
    /// Appends the lines that render the properties of the node; says
    /// whether there was one.
    fn fmt_properties(&self, f: &mut String, indent: usize) -> (any: bool)
        ensures
            any == (node_props(self.blob(), self.spec_offset()).len() > 0),
            final(f)@ == old(f)@ + props_text(
                node_props(self.blob(), self.spec_offset()),
                0,
                indent as nat,
            ),
    {
        let mut any = false;
        let ghost items = node_props(self.blob(), self.spec_offset());
        let mut props = self.properties();
        let ghost mut at: int = 0;
        assert(items.skip(0) =~= items);
        assert(f@ =~= old(f)@ + Seq::<char>::empty());
        loop
            invariant
                0 <= at <= items.len(),
                props.remaining() == items.skip(at),
                any == (at > 0),
                f@ + props_text(items, at, indent as nat) == old(f)@ + props_text(
                    items,
                    0,
                    indent as nat,
                ),
            ensures
                any == (items.len() > 0),
                f@ == old(f)@ + props_text(items, 0, indent as nat),
            decreases items.len() - at,
        {
            let ghost before = f@;
            match props.next() {
                None => {
                    assert(f@ + Seq::<char>::empty() =~= f@);
                    break ;
                },
                Some(item) => {
                    match item {
                        Ok(prop) => {
                            prop.fmt(f, indent);
                        },
                        Err(_) => {
                            f.append("<Error reading property>\n");
                        },
                    }
                    proof {
                        assert(items.skip(at)[0] == items[at]);
                        assert(items.skip(at).skip(1) =~= items.skip(at + 1));
                        let line = match items[at] {
                            Ok(p) => property_text(p.name, p.value, indent as nat),
                            Err(_) => "<Error reading property>\n"@,
                        };
                        assert(f@ == before + line);
                        assert(f@ + props_text(items, at + 1, indent as nat) =~= before
                            + props_text(items, at, indent as nat));
                        at = at + 1;
                    }
                    any = true;
                },
            }
        }
        any
    }

    /// Appends the lines that render the children of the node, each with
    /// all below it.
    fn fmt_children(&self, f: &mut String, indent: usize, after_properties: bool) -> (r: Result<
        (),
        FdtError,
    >)
        requires
            indent <= self.spec_offset() + 4,
        ensures
            match r {
                Ok(()) => children_text(
                    self.blob(),
                    node_children(self.blob(), self.spec_offset()),
                    0,
                    self.spec_offset(),
                    indent as nat,
                    after_properties,
                ) matches Ok(text) && final(f)@ == old(f)@ + text,
                Err(e) => children_text(
                    self.blob(),
                    node_children(self.blob(), self.spec_offset()),
                    0,
                    self.spec_offset(),
                    indent as nat,
                    after_properties,
                ) == Err::<Seq<char>, Fault>(e@),
            },
        decreases self.blob().len() - self.spec_offset(), 0nat,
    {
        let ghost b = self.blob();
        let offset = self.offset();
        let ghost items = node_children(b, offset as int);
        let mut children = self.children();
        proof {
            crate::model::node::lemma_node_children_bounds(b, offset as int);
            assert(items.skip(0) =~= items);
            assert(f@ =~= old(f)@ + Seq::<char>::empty());
            assert(Seq::<char>::empty() + children_text(
                b,
                items,
                0,
                offset as int,
                indent as nat,
                after_properties,
            )->Ok_0 =~= children_text(
                b,
                items,
                0,
                offset as int,
                indent as nat,
                after_properties,
            )->Ok_0);
        }
        let ghost goal = children_text_left(
            b,
            items,
            0,
            offset as int,
            indent as nat,
            after_properties,
            Seq::empty(),
        );
        let ghost mut at: int = 0;
        let ghost mut written: Seq<char> = Seq::empty();
        let mut first = !after_properties;
        loop
            invariant
                first == (at == 0 && !after_properties),
                b == self.blob(),
                children.blob() == b,
                offset == self.spec_offset(),
                offset + 4 <= b.len(),
                indent <= offset + 4,
                items == node_children(b, offset as int),
                goal == children_text(b, items, 0, offset as int, indent as nat, after_properties),
                0 <= at <= items.len(),
                children.remaining() == items.skip(at),
                forall|i: int|
                    0 <= i < items.len() ==> (#[trigger] items[i] matches Ok(o) ==> offset + 5 <= o
                        && o + 4 <= b.len()),
                f@ == old(f)@ + written,
                goal == children_text_left(
                    b,
                    items,
                    at,
                    offset as int,
                    indent as nat,
                    after_properties,
                    written,
                ),
            decreases items.len() - at,
        {
            match children.next() {
                None => {
                    proof {
                        lemma_children_text_done(
                            b,
                            items,
                            at,
                            offset as int,
                            indent as nat,
                            after_properties,
                            written,
                        );
                    }
                    return Ok(());
                },
                Some(item) => {
                    proof {
                        assert(items.skip(at)[0] == items[at]);
                        assert(items.skip(at).skip(1) =~= items.skip(at + 1));
                    }
                    if first {
                        f.append("");
                    } else {
                        f.append("\n");
                    }
                    first = false;
                    let ghost gap = child_gap(at, after_properties);
                    let ghost text: Seq<char>;
                    match item {
                        Ok(child) => {
                            match child.fmt_recursive(f, indent) {
                                Err(e) => {
                                    proof {
                                        lemma_children_text_fail(
                                            b,
                                            items,
                                            at,
                                            offset as int,
                                            indent as nat,
                                            after_properties,
                                            written,
                                            e@,
                                        );
                                    }
                                    return Err(e);
                                },
                                Ok(()) => {},
                            }
                            proof {
                                text = node_text(b, child.spec_offset(), indent as nat)->Ok_0;
                            }
                        },
                        Err(_) => {
                            f.append("<Error reading child node>\n");
                            proof {
                                text = "<Error reading child node>\n"@;
                            }
                        },
                    }
                    proof {
                        lemma_children_text_step(
                            b,
                            items,
                            at,
                            offset as int,
                            indent as nat,
                            after_properties,
                            written,
                            text,
                        );
                        assert(f@ =~= old(f)@ + (written + (gap + text)));
                        written = written + (gap + text);
                        at = at + 1;
                    }
                },
            }
        }
    }

    /// Appends the lines that render the node with all below it.
    ///
    /// # Errors
    ///
    /// Returns the error of a node whose name cannot be read. What has been
    /// appended by then stays.
    pub(crate) fn fmt_recursive(&self, f: &mut String, indent: usize) -> (r: Result<
        (),
        FdtError,
    >)
        requires
            indent <= self.spec_offset(),
        ensures
            match r {
                Ok(()) => node_text(self.blob(), self.spec_offset(), indent as nat) matches Ok(
                    text,
                ) && final(f)@ == old(f)@ + text,
                Err(e) => node_text(self.blob(), self.spec_offset(), indent as nat) == Err::<
                    Seq<char>,
                    Fault,
                >(e@),
            },
        decreases self.blob().len() - self.spec_offset(), 1nat,
    {
        let offset = self.offset();
        let len = self.fdt().data().len();
        proof {
            lemma_node_text_unfold(self.blob(), offset as int, indent as nat);
        }
        let name = match self.name() {
            Err(e) => {
                return Err(e);
            },
            Ok(n) => n,
        };
        push_spaces(f, indent);
        if name.is_empty() {
            f.append("/");
        } else {
            f.append(name);
        }
        f.append(" {\n");
        let any = self.fmt_properties(f, indent + 4);
        match self.fmt_children(f, indent + 4, any) {
            Err(e) => {
                return Err(e);
            },
            Ok(()) => {},
        }
        push_spaces(f, indent);
        f.append("};\n");
        proof {
            let below = children_text(
                self.blob(),
                node_children(self.blob(), offset as int),
                0,
                offset as int,
                (indent + 4) as nat,
                any,
            )->Ok_0;
            let text = spaces(indent as nat) + (if name@.len() == 0 {
                "/"@
            } else {
                name@
            }) + " {\n"@ + props_text(
                node_props(self.blob(), offset as int),
                0,
                (indent + 4) as nat,
            ) + below + spaces(indent as nat) + "};\n"@;
            assert(f@ =~= old(f)@ + text);
        }
        Ok(())
    }
}

impl<'a> Fdt<'a> {
    /// Renders the blob as device tree source text.
    ///
    /// # Errors
    ///
    /// Returns the error of the root or of a node whose name cannot be
    /// read.
    pub fn to_string(&self) -> (r: Result<String, FdtError>)
        ensures
            match r {
                Ok(s) => blob_text(self@) == Ok::<Seq<char>, Fault>(s@),
                Err(e) => blob_text(self@) == Err::<Seq<char>, Fault>(e@),
            },
    {
        let root = match self.root() {
            Err(e) => {
                return Err(e);
            },
            Ok(n) => n,
        };
        let mut f = String::from_str("/dts-v1/;\n");
        let ghost rs = reservations_from(self@, hdr_off_mem_rsvmap(self@) as int);
        let mut reservations = self.memory_reservations();
        let ghost mut at: int = 0;
        assert(rs.skip(0) =~= rs);
        assert(f@ + reservations_text(rs, 0) =~= "/dts-v1/;\n"@ + reservations_text(rs, 0));
        loop
            invariant
                0 <= at <= rs.len(),
                reservations.remaining() == rs.skip(at),
                f@ + reservations_text(rs, at) == "/dts-v1/;\n"@ + reservations_text(rs, 0),
            ensures
                f@ == "/dts-v1/;\n"@ + reservations_text(rs, 0),
            decreases rs.len() - at,
        {
            let ghost before = f@;
            match reservations.next() {
                None => {
                    assert(f@ + Seq::<char>::empty() =~= f@);
                    break ;
                },
                Some(reservation) => {
                    f.append("/memreserve/ 0x");
                    push_hex(&mut f, reservation.address());
                    f.append(" 0x");
                    push_hex(&mut f, reservation.size());
                    f.append(";\n");
                    proof {
                        assert(rs.skip(at)[0] == rs[at]);
                        assert(rs.skip(at).skip(1) =~= rs.skip(at + 1));
                        let line = "/memreserve/ 0x"@ + hex_text(rs[at].0 as nat) + " 0x"@
                            + hex_text(rs[at].1 as nat) + ";\n"@;
                        assert(f@ =~= before + line);
                        assert(f@ + reservations_text(rs, at + 1) =~= before + reservations_text(
                            rs,
                            at,
                        ));
                        at = at + 1;
                    }
                },
            }
        }
        f.append("\n");
        let ghost head = f@;
        match root.fmt_recursive(&mut f, 0) {
            Err(e) => Err(e),
            Ok(()) => {
                proof {
                    let tree = node_text(self@, root.spec_offset(), 0)->Ok_0;
                    assert(head =~= "/dts-v1/;\n"@ + reservations_text(rs, 0) + "\n"@);
                    assert(f@ =~= "/dts-v1/;\n"@ + reservations_text(rs, 0) + "\n"@ + tree);
                }
                Ok(f)
            },
        }
    }
}

} // verus!
