//! The field-level model of a problem declaration: each field may carry a
//! `limit` or `filter` attribute with a description, and its type decides
//! how it is bound from configuration.
//!
//! The declaration arrives as plain data (attribute idents, string
//! arguments, type text), already lifted out of the token stream by the
//! build-time front end.

use crate::attrs::str_eq;
use vstd::prelude::*;

verus! {

/// One attribute on a field: the single identifier of its path, if the path
/// is a single identifier, and its string-literal argument, if it has one.
pub struct FieldAttr {
    pub path_ident: Option<String>,
    pub str_arg: Option<String>,
}

/// The shape of a field's type, as far as the binding rules care: a path
/// type (with its printed text and whether its head segment is `Option`),
/// or anything else.
pub enum TyShape {
    Path { text: String, first_is_option: bool },
    Other { text: String },
}

/// One declared field: its attributes, its name (absent on tuple fields)
/// and its type.
pub struct FieldDecl {
    pub attrs: Vec<FieldAttr>,
    pub name: Option<String>,
    pub ty: TyShape,
}

/// The configuration role of a field.
pub enum Kind {
    Filter(String),
    Limit(String),
    Plain,
}

impl Kind {
    /// The description carried by a `filter` or `limit` attribute; plain
    /// fields have none.
    pub fn desc(&self) -> (r: &str)
        ensures
            self matches Kind::Filter(d) ==> r@ == d@,
            self matches Kind::Limit(d) ==> r@ == d@,
            self is Plain ==> r@ == Seq::<char>::empty(),
    {
        proof {
            reveal_strlit("");
        }
        match self {
            Kind::Filter(desc) => desc.as_str(),
            Kind::Limit(desc) => desc.as_str(),
            Kind::Plain => "",
        }
    }
}

/// A converted field.
pub struct Field {
    pub kind: Kind,
    pub name: String,
    pub optional_ty: String,
    pub ty: String,
}

impl Field {
    pub fn is_limit(&self) -> (r: bool)
        ensures
            r == self.kind is Limit,
    {
        matches!(self.kind, Kind::Limit(_))
    }

    pub fn is_filter(&self) -> (r: bool)
        ensures
            r == self.kind is Filter,
    {
        matches!(self.kind, Kind::Filter(_))
    }
}

/// The kind one attribute contributes: `limit` and `filter` need a string
/// description; any other single-identifier path is unknown; a longer path
/// contributes nothing.
pub open spec fn attr_kind(a: FieldAttr) -> Result<Kind, ()> {
    match a.path_ident {
        Some(id) => if id@ == "limit"@ {
            match a.str_arg {
                Some(d) => Ok(Kind::Limit(d)),
                None => Err(()),
            }
        } else if id@ == "filter"@ {
            match a.str_arg {
                Some(d) => Ok(Kind::Filter(d)),
                None => Err(()),
            }
        } else {
            Err(())
        },
        None => Ok(Kind::Plain),
    }
}

/// Fold the attributes of a field: at most one of `limit` / `filter` may
/// appear.
pub open spec fn field_kind_fold(attrs: Seq<FieldAttr>, kind: Kind) -> Result<Kind, ()>
    decreases attrs.len(),
{
    if attrs.len() == 0 {
        Ok(kind)
    } else {
        match attr_kind(attrs.first()) {
            Err(_) => Err(()),
            Ok(k) => {
                if kind is Plain {
                    field_kind_fold(attrs.drop_first(), k)
                } else if k is Plain {
                    field_kind_fold(attrs.drop_first(), kind)
                } else {
                    Err(())
                }
            },
        }
    }
}

fn kind_of_attr(a: &FieldAttr) -> (r: Result<Kind, String>)
    ensures
        r matches Ok(k) ==> attr_kind(*a) == Ok::<Kind, ()>(k),
        r is Err <==> attr_kind(*a) is Err,
{
    match &a.path_ident {
        Some(id) => {
            if str_eq(id.as_str(), "limit") {
                match &a.str_arg {
                    Some(d) => Ok(Kind::Limit(d.clone())),
                    None => Err("a description missed".to_owned()),
                }
            } else if str_eq(id.as_str(), "filter") {
                match &a.str_arg {
                    Some(d) => Ok(Kind::Filter(d.clone())),
                    None => Err("a description missed".to_owned()),
                }
            } else {
                Err("unknown attribute".to_owned())
            }
        },
        None => Ok(Kind::Plain),
    }
}

fn kind_of_decl(d: &FieldDecl) -> (r: Result<Kind, String>)
    ensures
        r matches Ok(k) ==> field_kind_fold(d.attrs@, Kind::Plain) == Ok::<Kind, ()>(k),
        r is Err <==> field_kind_fold(d.attrs@, Kind::Plain) is Err,
{
    let mut kind = Kind::Plain;
    let n = d.attrs.len();
    let mut i: usize = 0;
    proof {
        assert(d.attrs@.skip(0) =~= d.attrs@);
    }
    while i < n
        invariant
            n == d.attrs@.len(),
            i <= n,
            field_kind_fold(d.attrs@.skip(i as int), kind) == field_kind_fold(
                d.attrs@,
                Kind::Plain,
            ),
        decreases n - i,
    {
        proof {
            assert(d.attrs@.skip(i as int).first() == d.attrs@[i as int]);
            assert(d.attrs@.skip(i as int).drop_first() =~= d.attrs@.skip(i as int + 1));
        }
        match kind_of_attr(&d.attrs[i]) {
            Err(e) => {
                return Err(e);
            },
            Ok(k) => {
                let kind_is_plain = matches!(kind, Kind::Plain);
                let k_is_plain = matches!(k, Kind::Plain);
                if kind_is_plain {
                    kind = k;
                } else if k_is_plain {
                } else {
                    return Err("multiple attributes not supported".to_owned());
                }
            },
        }
        i += 1;
    }
    proof {
        assert(d.attrs@.skip(n as int) =~= Seq::<FieldAttr>::empty());
    }
    Ok(kind)
}

/// The printed text of a type shape.
pub open spec fn ty_text(t: TyShape) -> Seq<char> {
    match t {
        TyShape::Path { text, first_is_option: _ } => text@,
        TyShape::Other { text } => text@,
    }
}

/// The optional form of a path type: unchanged when its head is already
/// `Option`, wrapped in `Option < ... >` otherwise.
pub open spec fn optional_ty_text(t: TyShape) -> Seq<char> {
    match t {
        TyShape::Path { text, first_is_option } => if first_is_option {
            text@
        } else {
            "Option < "@ + text@ + " >"@
        },
        TyShape::Other { text: _ } => Seq::<char>::empty(),
    }
}

/// A declared field converts iff its attributes fold to one kind, it has a
/// name, and its type is a path type.
pub open spec fn field_decl_ok(d: FieldDecl) -> bool {
    field_kind_fold(d.attrs@, Kind::Plain) is Ok && d.name is Some && d.ty is Path
}

/// `f` is the conversion of the declared field `d`.
pub open spec fn field_converted(d: FieldDecl, f: Field) -> bool {
    &&& field_kind_fold(d.attrs@, Kind::Plain) == Ok::<Kind, ()>(f.kind)
    &&& d.name matches Some(n) && f.name == n
    &&& f.ty@ == ty_text(d.ty)
    &&& f.optional_ty@ == optional_ty_text(d.ty)
}

impl Field {
    /// Convert one declared field.  The kind comes from its attributes, the
    /// name must be present, and the type must be a path type (its optional
    /// form keeps an `Option` head, and wraps anything else in one).
    pub fn from_decl(d: &FieldDecl) -> (r: Result<Field, String>)
        ensures
            r matches Ok(f) ==> field_converted(*d, f),
            r is Err <==> !field_decl_ok(*d),
    {
        let kind = match kind_of_decl(d) {
            Ok(k) => k,
            Err(e) => {
                return Err(e);
            },
        };
        let name = match &d.name {
            Some(n) => n.clone(),
            None => {
                return Err("field name missed".to_owned());
            },
        };
        match &d.ty {
            TyShape::Other { text: _ } => Err("unknown type".to_owned()),
            TyShape::Path { text, first_is_option } => {
                let ty = text.clone();
                let optional_ty = if *first_is_option {
                    text.clone()
                } else {
                    let mut o = "Option < ".to_owned();
                    o.append(text.as_str());
                    o.append(" >");
                    o
                };
                Ok(Field { kind, name, optional_ty, ty })
            },
        }
    }
}

/// The plain field metadata of a list of converted fields.
pub open spec fn plain_fields(fields: Seq<Field>) -> Seq<crate::definition::Field>
    decreases fields.len(),
{
    if fields.len() == 0 {
        Seq::empty()
    } else {
        seq![
            crate::definition::Field { name: fields.first().name, ty: fields.first().ty },
        ] + plain_fields(fields.drop_first())
    }
}

/// The tagged metadata of the `filter` fields, with their optional types.
pub open spec fn filter_fields(fields: Seq<Field>) -> Seq<crate::definition::TaggedField>
    decreases fields.len(),
{
    if fields.len() == 0 {
        Seq::empty()
    } else {
        let f = fields.first();
        let rest = filter_fields(fields.drop_first());
        match f.kind {
            Kind::Filter(desc) => seq![
                crate::definition::TaggedField { name: f.name, ty: f.optional_ty, desc },
            ] + rest,
            _ => rest,
        }
    }
}

/// The tagged metadata of the `limit` fields, with their plain types.
pub open spec fn limit_fields(fields: Seq<Field>) -> Seq<crate::definition::TaggedField>
    decreases fields.len(),
{
    if fields.len() == 0 {
        Seq::empty()
    } else {
        let f = fields.first();
        let rest = limit_fields(fields.drop_first());
        match f.kind {
            Kind::Limit(desc) => seq![
                crate::definition::TaggedField { name: f.name, ty: f.ty, desc },
            ] + rest,
            _ => rest,
        }
    }
}

/// One declared problem structure, before conversion.
pub struct ItemDecl {
    pub is_struct: bool,
    pub name: String,
    pub fields: Vec<FieldDecl>,
}

/// A parsed problem structure: its name and its converted fields.
pub struct Item {
    pub name: String,
    pub fields: Vec<Field>,
}

impl Item {
    /// Convert a declared structure.  Anything but a struct is rejected,
    /// and the first field that fails to convert decides the error.
    pub fn parse(decl: &ItemDecl) -> (r: Result<Item, String>)
        ensures
            r matches Ok(item) ==> {
                &&& decl.is_struct
                &&& item.name == decl.name
                &&& item.fields@.len() == decl.fields@.len()
                &&& forall|i: int|
                    0 <= i < decl.fields@.len() ==> field_converted(
                        #[trigger] decl.fields@[i],
                        item.fields@[i],
                    )
            },
            !decl.is_struct ==> r is Err,
    {
        if !decl.is_struct {
            return Err("expected struct".to_owned());
        }
        let mut fields: Vec<Field> = Vec::new();
        let n = decl.fields.len();
        let mut i: usize = 0;
        while i < n
            invariant
                n == decl.fields@.len(),
                i <= n,
                fields@.len() == i,
                forall|j: int|
                    0 <= j < i ==> field_converted(#[trigger] decl.fields@[j], fields@[j]),
            decreases n - i,
        {
            match Field::from_decl(&decl.fields[i]) {
                Ok(f) => {
                    fields.push(f);
                },
                Err(e) => {
                    return Err(e);
                },
            }
            i += 1;
        }
        Ok(Item { name: decl.name.clone(), fields })
    }

    /// The plain metadata of every field, in order.
    pub fn fields(&self) -> (r: Vec<crate::definition::Field>)
        ensures
            r@ == plain_fields(self.fields@),
    {
        let mut out: Vec<crate::definition::Field> = Vec::new();
        let n = self.fields.len();
        let mut i: usize = 0;
        proof {
            assert(self.fields@.skip(0) =~= self.fields@);
        }
        while i < n
            invariant
                n == self.fields@.len(),
                i <= n,
                out@ + plain_fields(self.fields@.skip(i as int)) == plain_fields(self.fields@),
            decreases n - i,
        {
            proof {
                assert(self.fields@.skip(i as int).first() == self.fields@[i as int]);
                assert(self.fields@.skip(i as int).drop_first() =~= self.fields@.skip(i as int + 1));
            }
            let f = &self.fields[i];
            let ghost out0 = out@;
            out.push(crate::definition::Field { name: f.name.clone(), ty: f.ty.clone() });
            proof {
                assert(out@ =~= out0 + seq![
                    crate::definition::Field {
                        name: self.fields@[i as int].name,
                        ty: self.fields@[i as int].ty,
                    },
                ]);
            }
            i += 1;
        }
        proof {
            assert(self.fields@.skip(n as int) =~= Seq::<Field>::empty());
            assert(out@ + Seq::<crate::definition::Field>::empty() =~= out@);
        }
        out
    }

    /// The tagged metadata of the `filter` fields, in order.
    pub fn filters(&self) -> (r: Vec<crate::definition::TaggedField>)
        ensures
            r@ == filter_fields(self.fields@),
    {
        let mut out: Vec<crate::definition::TaggedField> = Vec::new();
        let n = self.fields.len();
        let mut i: usize = 0;
        proof {
            assert(self.fields@.skip(0) =~= self.fields@);
        }
        while i < n
            invariant
                n == self.fields@.len(),
                i <= n,
                out@ + filter_fields(self.fields@.skip(i as int)) == filter_fields(self.fields@),
            decreases n - i,
        {
            proof {
                assert(self.fields@.skip(i as int).first() == self.fields@[i as int]);
                assert(self.fields@.skip(i as int).drop_first() =~= self.fields@.skip(i as int + 1));
            }
            let f = &self.fields[i];
            let ghost out0 = out@;
            match &f.kind {
                Kind::Filter(desc) => {
                    out.push(
                        crate::definition::TaggedField {
                            name: f.name.clone(),
                            ty: f.optional_ty.clone(),
                            desc: desc.clone(),
                        },
                    );
                    proof {
                        assert(out@ =~= out0 + seq![
                            crate::definition::TaggedField {
                                name: self.fields@[i as int].name,
                                ty: self.fields@[i as int].optional_ty,
                                desc: self.fields@[i as int].kind->Filter_0,
                            },
                        ]);
                    }
                },
                _ => {
                    proof {
                        assert(out@ + filter_fields(self.fields@.skip(i as int + 1)) =~= out0
                            + filter_fields(self.fields@.skip(i as int + 1)));
                    }
                },
            }
            i += 1;
        }
        proof {
            assert(self.fields@.skip(n as int) =~= Seq::<Field>::empty());
            assert(out@ + Seq::<crate::definition::TaggedField>::empty() =~= out@);
        }
        out
    }

    /// The tagged metadata of the `limit` fields, in order.
    pub fn limits(&self) -> (r: Vec<crate::definition::TaggedField>)
        ensures
            r@ == limit_fields(self.fields@),
    {
        let mut out: Vec<crate::definition::TaggedField> = Vec::new();
        let n = self.fields.len();
        let mut i: usize = 0;
        proof {
            assert(self.fields@.skip(0) =~= self.fields@);
        }
        while i < n
            invariant
                n == self.fields@.len(),
                i <= n,
                out@ + limit_fields(self.fields@.skip(i as int)) == limit_fields(self.fields@),
            decreases n - i,
        {
            proof {
                assert(self.fields@.skip(i as int).first() == self.fields@[i as int]);
                assert(self.fields@.skip(i as int).drop_first() =~= self.fields@.skip(i as int + 1));
            }
            let f = &self.fields[i];
            let ghost out0 = out@;
            match &f.kind {
                Kind::Limit(desc) => {
                    out.push(
                        crate::definition::TaggedField {
                            name: f.name.clone(),
                            ty: f.ty.clone(),
                            desc: desc.clone(),
                        },
                    );
                    proof {
                        assert(out@ =~= out0 + seq![
                            crate::definition::TaggedField {
                                name: self.fields@[i as int].name,
                                ty: self.fields@[i as int].ty,
                                desc: self.fields@[i as int].kind->Limit_0,
                            },
                        ]);
                    }
                },
                _ => {
                    proof {
                        assert(out@ + limit_fields(self.fields@.skip(i as int + 1)) =~= out0
                            + limit_fields(self.fields@.skip(i as int + 1)));
                    }
                },
            }
            i += 1;
        }
        proof {
            assert(self.fields@.skip(n as int) =~= Seq::<Field>::empty());
            assert(out@ + Seq::<crate::definition::TaggedField>::empty() =~= out@);
        }
        out
    }
}

} // verus!
