//! A catalogue of products with optional icons, and the store of uploaded
//! icon images.

use std::collections::HashMap;
use vstd::prelude::*;
use vstd::std_specs::hash::{group_hash_axioms, spec_keys_iter, spec_values_iter};
use vstd::std_specs::iter::IteratorSpec;
use vstd::string::StringExecFns;
use crate::text::{signed_decimal, signed_decimal_text};
use crate::uuids::{is_v4_uuid, new_v4_uuid, uuid_text, uuid_to_string};

verus! {

broadcast use group_hash_axioms;

/// Identifier of an image: the 128 bits of a random (version 4) UUID.
pub type ImageId = u128;

/// Identifier of a product.
pub type Id = i64;

/// What a client sends to create a product.
pub struct CreateProductRequest {
    pub name: String,
    pub description: String,
    pub icon: Option<ImageId>,
}

pub struct Image {
    pub id: ImageId,
    pub raw: Vec<u8>,
}

impl Image {
    pub fn new(id: ImageId, raw: Vec<u8>) -> (i: Self)
        ensures
            i.id == id,
            i.raw@ == raw@,
    {
        Self { id, raw }
    }

    /// The image's bytes.
    pub fn bytes(self) -> (b: Vec<u8>)
        ensures
            b@ == self.raw@,
    {
        self.raw
    }

    /// A copy of the image.
    pub fn duplicate(&self) -> (i: Self)
        ensures
            i.id == self.id,
            i.raw@ == self.raw@,
    {
        Image { id: self.id, raw: self.raw.clone() }
    }
}

/// Why an image could not be handed out.
#[derive(PartialEq, Eq, Structural, Clone, Copy, Debug)]
pub enum ImageError {
    NoImage(ImageId),
}

impl ImageError {
    /// The message that tells a client why.
    pub open spec fn message(self) -> Seq<char> {
        match self {
            ImageError::NoImage(id) => "No image with id "@ + uuid_text(id),
        }
    }

    /// The message that tells a client why.
    pub fn text(&self) -> (s: String)
        ensures
            s@ == self.message(),
    {
        match self {
            ImageError::NoImage(id) => {
                let mut s = String::from_str("No image with id ");
                let u = uuid_to_string(*id);
                s.append(u.as_str());
                s
            },
        }
    }
}

pub struct Images {
    images: HashMap<ImageId, Image>,
}

impl View for Images {
    type V = Map<ImageId, Image>;

    closed spec fn view(&self) -> Map<ImageId, Image> {
        self.images@
    }
}

impl Images {
    pub fn new() -> (s: Self)
        ensures
            s@ == Map::<ImageId, Image>::empty(),
    {
        Self { images: HashMap::new() }
    }

    /// Stores an image under a fresh random identifier and returns it; an
    /// image already stored under the same identifier is replaced.
    pub fn create(&mut self, raw: Vec<u8>) -> (id: ImageId)
        ensures
            final(self)@.dom() == old(self)@.dom().insert(id),
            forall|k: ImageId| k != id && old(self)@.contains_key(k) ==> final(self)@[k] == old(self)@[k],
            final(self)@[id].id == id,
            final(self)@[id].raw@ == raw@,
            is_v4_uuid(id),
    {
        let id = self.generate_id();
        self.images.insert(id, Image::new(id, raw));
        proof {
            assert(self@ == old(self)@.insert(id, self@[id]));
        }
        id
    }

    /// A copy of the image with this identifier.
    pub fn find(&self, id: ImageId) -> (r: Result<Image, ImageError>)
        ensures
            self@.contains_key(id) ==> (r matches Ok(i) && i.id == self@[id].id && i.raw@ == self@[id].raw@),
            !self@.contains_key(id) ==> (r matches Err(e) && e == ImageError::NoImage(id)),
    {
        match self.images.get(&id) {
            Some(image) => Ok(image.duplicate()),
            None => Err(self.no_image(id)),
        }
    }

    /// Whether an image with this identifier is stored.
    pub fn contains(&self, id: ImageId) -> (r: Result<(), ImageError>)
        ensures
            r is Ok <==> self@.contains_key(id),
            r matches Err(e) ==> e == ImageError::NoImage(id),
    {
        if self.images.contains_key(&id) {
            Ok(())
        } else {
            Err(self.no_image(id))
        }
    }

    fn no_image(&self, id: ImageId) -> (e: ImageError)
        ensures
            e == ImageError::NoImage(id),
    {
        ImageError::NoImage(id)
    }

    /// A fresh random (version 4) identifier.
    fn generate_id(&self) -> (id: ImageId)
        ensures
            is_v4_uuid(id),
    {
        new_v4_uuid()
    }
}

pub struct Product {
    pub id: Id,
    pub name: String,
    pub description: String,
    pub icon: Option<ImageId>,
}

/// The fields of a product that a client changes; a field left `None` is
/// kept as it is.
pub struct PartialProduct {
    pub id: Option<Id>,
    pub name: Option<String>,
    pub description: Option<String>,
    pub icon: Option<ImageId>,
}

/// `p` with the fields given in `partial` replaced.
pub open spec fn updated(p: Product, partial: PartialProduct) -> Product {
    Product {
        id: match partial.id {
            Some(i) => i,
            None => p.id,
        },
        name: match partial.name {
            Some(n) => n,
            None => p.name,
        },
        description: match partial.description {
            Some(d) => d,
            None => p.description,
        },
        icon: match partial.icon {
            Some(i) => Some(i),
            None => p.icon,
        },
    }
}

/// An update sets each field that the partial product gives to the value
/// given, and keeps each field it leaves out; so applying the same update
/// twice changes nothing more, and an update that gives nothing changes
/// nothing.
pub proof fn lemma_update_sets_given_fields(p: Product, partial: PartialProduct)
    ensures
        partial.id matches Some(i) ==> updated(p, partial).id == i,
        partial.id is None ==> updated(p, partial).id == p.id,
        partial.name matches Some(n) ==> updated(p, partial).name == n,
        partial.name is None ==> updated(p, partial).name == p.name,
        partial.description matches Some(d) ==> updated(p, partial).description == d,
        partial.description is None ==> updated(p, partial).description == p.description,
        partial.icon matches Some(i) ==> updated(p, partial).icon == Some(i),
        partial.icon is None ==> updated(p, partial).icon == p.icon,
        updated(updated(p, partial), partial) == updated(p, partial),
        (partial.id is None && partial.name is None && partial.description is None
            && partial.icon is None) ==> updated(p, partial) == p,
{
}

impl Product {
    fn new(id: Id, name: String, description: String, icon: Option<ImageId>) -> (p: Self)
        ensures
            p == (Product { id, name, description, icon }),
    {
        Product { id, name, description, icon }
    }

    /// A copy of the product.
    pub fn duplicate(&self) -> (p: Self)
        ensures
            p == *self,
    {
        Product {
            id: self.id,
            name: self.name.clone(),
            description: self.description.clone(),
            icon: self.icon,
        }
    }

    fn update(&mut self, partial: PartialProduct)
        ensures
            *final(self) == updated(*old(self), partial),
    {
        if let Some(fresh) = partial.id {
            self.id = fresh;
        }
        if let Some(fresh) = partial.name {
            self.name = fresh;
        }
        if let Some(fresh) = partial.description {
            self.description = fresh;
        }
        if let Some(fresh) = partial.icon {
            self.icon = Some(fresh);
        }
    }
}

impl PartialProduct {
    pub fn icon(&self) -> (i: Option<ImageId>)
        ensures
            i == self.icon,
    {
        self.icon
    }
}

/// Why a request on the catalogue failed.
#[derive(PartialEq, Eq, Structural, Clone, Copy, Debug)]
pub enum ProductError {
    NoProduct(Id),
    NoIcon(Id),
}

impl ProductError {
    /// The message that tells a client why.
    pub open spec fn message(self) -> Seq<char> {
        match self {
            ProductError::NoProduct(id) => "No product with id "@ + signed_decimal(id as int),
            ProductError::NoIcon(id) => "Product "@ + signed_decimal(id as int) + " has no icon"@,
        }
    }

    /// The message that tells a client why.
    pub fn text(&self) -> (s: String)
        ensures
            s@ == self.message(),
    {
        match self {
            ProductError::NoProduct(id) => {
                let mut s = String::from_str("No product with id ");
                let d = signed_decimal_text(*id);
                s.append(d.as_str());
                s
            },
            ProductError::NoIcon(id) => {
                let mut s = String::from_str("Product ");
                let d = signed_decimal_text(*id);
                s.append(d.as_str());
                s.append(" has no icon");
                s
            },
        }
    }
}

/// Whether `m` is the largest identifier in `ids`.
pub open spec fn is_largest(ids: Set<Id>, m: Id) -> bool {
    ids.contains(m) && forall|k: Id| #[trigger] ids.contains(k) ==> k <= m
}

/// The identifier a new product gets: one more than the largest in use, or
/// 0 for an empty catalogue.
pub open spec fn next_id(ids: Set<Id>) -> int {
    if ids.is_empty() {
        0
    } else {
        (choose|m: Id| is_largest(ids, m)) + 1
    }
}

pub struct Products {
    products: HashMap<Id, Product>,
}

impl View for Products {
    type V = Map<Id, Product>;

    closed spec fn view(&self) -> Map<Id, Product> {
        self.products@
    }
}

impl Products {
    /// Every product is stored under its own identifier.
    pub open spec fn wf(&self) -> bool {
        forall|k: Id| #[trigger] self@.contains_key(k) ==> self@[k].id == k
    }

    pub fn new() -> (s: Self)
        ensures
            s@ == Map::<Id, Product>::empty(),
            s.wf(),
    {
        Products { products: HashMap::new() }
    }

    /// Whether a product can be added: every identifier in use is below the
    /// largest one, so the next one exists.
    pub fn has_room(&self) -> (b: bool)
        ensures
            b == forall|k: Id| #[trigger] self@.contains_key(k) ==> k < i64::MAX,
    {
        let ghost g_seq = spec_keys_iter(&self.products).remaining();
        let ghost mut g_idx: int = 0;
        for k in it: self.products.keys()
            invariant
                it.seq() == g_seq,
                g_idx == it.index(),
                g_seq.unref().to_set() == self.products@.dom(),
                forall|j: int| 0 <= j < it.index() ==> *#[trigger] it.seq()[j] < i64::MAX,
        {
            if *k == i64::MAX {
                proof {
                    assert(g_seq.unref()[g_idx] == *k);
                    assert(g_seq.unref().to_set().contains(*k));
                    assert(self@.contains_key(*k) && !(*k < i64::MAX));
                }
                return false;
            }
            proof {
                g_idx = g_idx + 1;
            }
        }
        proof {
            assert forall|k: Id| #[trigger] self@.contains_key(k) implies k < i64::MAX by {
                assert(g_seq.unref().to_set().contains(k));
                let j = choose|j: int| 0 <= j < g_seq.unref().len() && g_seq.unref()[j] == k;
                assert(*g_seq[j] == g_seq.unref()[j]);
            }
        }
        true
    }

    /// Adds a product under the next identifier and returns it.
    pub fn create(&mut self, name: String, description: String, icon: Option<ImageId>) -> (p: Product)
        requires
            old(self).wf(),
            forall|k: Id| #[trigger] old(self)@.contains_key(k) ==> k < i64::MAX,
        ensures
            final(self).wf(),
            p == (Product { id: next_id(old(self)@.dom()) as i64, name, description, icon }),
            !old(self)@.contains_key(p.id),
            forall|k: Id| #[trigger] old(self)@.contains_key(k) ==> k < p.id,
            final(self)@ == old(self)@.insert(p.id, p),
    {
        let id = self.generate_id();
        let product = Product::new(id, name, description, icon);
        self.products.insert(id, product.duplicate());
        product
    }

    /// Changes the fields of product `id` that `partial` gives and returns
    /// the product as it is now. When the identifier changes, the product
    /// moves to the new one, replacing whatever product was stored there.
    pub fn update(&mut self, id: Id, partial: PartialProduct) -> (r: Result<Product, ProductError>)
        requires
            old(self).wf(),
        ensures
            final(self).wf(),
            !old(self)@.contains_key(id) ==> r == Err::<Product, ProductError>(ProductError::NoProduct(id))
                && final(self)@ == old(self)@,
            old(self)@.contains_key(id) ==> ({
                let p = updated(old(self)@[id], partial);
                let base = if partial.id matches Some(u) && u != id {
                    old(self)@.remove(id)
                } else {
                    old(self)@
                };
                r == Ok::<Product, ProductError>(p) && final(self)@ == base.insert(p.id, p)
            }),
    {
        let mut product = self.find(id)?;
        let moved = match partial.id {
            Some(updated) => updated != id,
            None => false,
        };
        if moved {
            let _ = self.delete(id);
        }
        product.update(partial);
        self.products.insert(product.id, product.duplicate());
        Ok(product)
    }

    /// Removes product `id` and returns it.
    pub fn delete(&mut self, id: Id) -> (r: Result<Product, ProductError>)
        requires
            old(self).wf(),
        ensures
            final(self).wf(),
            old(self)@.contains_key(id) ==> r == Ok::<Product, ProductError>(old(self)@[id])
                && final(self)@ == old(self)@.remove(id),
            !old(self)@.contains_key(id) ==> r == Err::<Product, ProductError>(ProductError::NoProduct(id))
                && final(self)@ == old(self)@,
    {
        match self.products.remove(&id) {
            Some(p) => Ok(p),
            None => Err(self.no_product(id)),
        }
    }

    /// All products, in no particular order.
    pub fn all(&self) -> (r: Vec<Product>)
        ensures
            r@.len() == self@.dom().len(),
            r@.to_set() == self@.values(),
    {
        let mut out: Vec<Product> = Vec::new();
        let ghost g_seq = spec_values_iter(&self.products).remaining();
        let ghost mut g_idx: int = 0;
        for p in it: self.products.values()
            invariant
                it.seq() == g_seq,
                g_idx == it.index(),
                out@ == g_seq.unref().take(g_idx),
        {
            let copy = p.duplicate();
            proof {
                assert(g_seq.unref().take(g_idx + 1) =~= g_seq.unref().take(g_idx).push(*p));
                g_idx = g_idx + 1;
            }
            out.push(copy);
        }
        proof {
            assert(g_seq.unref().take(g_idx) =~= g_seq.unref());
        }
        out
    }

    /// A copy of product `id`.
    pub fn find(&self, id: Id) -> (r: Result<Product, ProductError>)
        ensures
            self@.contains_key(id) ==> r == Ok::<Product, ProductError>(self@[id]),
            !self@.contains_key(id) ==> r == Err::<Product, ProductError>(ProductError::NoProduct(id)),
    {
        match self.products.get(&id) {
            Some(p) => Ok(p.duplicate()),
            None => Err(self.no_product(id)),
        }
    }

    /// Gives product `id` the icon `icon`.
    pub fn set_icon(&mut self, id: Id, icon: ImageId) -> (r: Result<Product, ProductError>)
        requires
            old(self).wf(),
        ensures
            final(self).wf(),
            !old(self)@.contains_key(id) ==> r == Err::<Product, ProductError>(ProductError::NoProduct(id))
                && final(self)@ == old(self)@,
            old(self)@.contains_key(id) ==> ({
                let p = Product { icon: Some(icon), ..old(self)@[id] };
                r == Ok::<Product, ProductError>(p) && final(self)@ == old(self)@.insert(id, p)
            }),
    {
        self.update(id, PartialProduct { id: None, name: None, description: None, icon: Some(icon) })
    }

    /// The icon of product `id`.
    pub fn icon(&mut self, id: Id) -> (r: Result<ImageId, ProductError>)
        ensures
            final(self)@ == old(self)@,
            !old(self)@.contains_key(id) ==> r == Err::<ImageId, ProductError>(ProductError::NoProduct(id)),
            old(self)@.contains_key(id) ==> r == match old(self)@[id].icon {
                Some(i) => Ok::<ImageId, ProductError>(i),
                None => Err(ProductError::NoIcon(id)),
            },
    {
        match self.find(id) {
            Ok(product) => match product.icon {
                Some(i) => Ok(i),
                None => Err(self.no_icon(id)),
            },
            Err(e) => Err(e),
        }
    }

    fn no_product(&self, id: Id) -> (e: ProductError)
        ensures
            e == ProductError::NoProduct(id),
    {
        ProductError::NoProduct(id)
    }

    fn no_icon(&self, id: Id) -> (e: ProductError)
        ensures
            e == ProductError::NoIcon(id),
    {
        ProductError::NoIcon(id)
    }

    /// The identifier for the next product: one more than the largest in
    /// use, or 0 when there is none.
    fn generate_id(&self) -> (id: Id)
        requires
            forall|k: Id| #[trigger] self@.contains_key(k) ==> k < i64::MAX,
        ensures
            id == next_id(self@.dom()),
            forall|k: Id| #[trigger] self@.contains_key(k) ==> k < id,
    {
        let mut best: Option<Id> = None;
        let ghost g_seq = spec_keys_iter(&self.products).remaining();
        let ghost mut g_idx: int = 0;
        for k in it: self.products.keys()
            invariant
                it.seq() == g_seq,
                g_idx == it.index(),
                g_seq.unref().to_set() == self.products@.dom(),
                best is None ==> it.index() == 0,
                best matches Some(b) ==> exists|j: int| 0 <= j < it.index() && *it.seq()[j] == b,
                best matches Some(b) ==> forall|j: int| 0 <= j < it.index() ==> *#[trigger] it.seq()[j] <= b,
        {
            match best {
                None => best = Some(*k),
                Some(b) => if *k > b {
                    best = Some(*k);
                },
            }
            proof {
                g_idx = g_idx + 1;
            }
        }
        proof {
            let ids = self.products@.dom();
            let keys = g_seq.unref();
            assert(g_idx == g_seq.len());
            match best {
                None => {
                    assert(keys.len() == 0);
                    assert(keys.to_set() =~= Set::<Id>::empty());
                    assert(ids.is_empty());
                },
                Some(b) => {
                    let j0 = choose|j: int| 0 <= j < g_idx && *g_seq[j] == b;
                    assert(keys[j0] == b);
                    assert(ids.contains(b));
                    assert forall|k: Id| #[trigger] ids.contains(k) implies k <= b by {
                        assert(keys.to_set().contains(k));
                        let j = choose|j: int| 0 <= j < keys.len() && keys[j] == k;
                        assert(*g_seq[j] == keys[j]);
                    }
                    assert(is_largest(ids, b));
                    assert(!ids.is_empty());
                    let m = choose|m: Id| is_largest(ids, m);
                    assert(m == b);
                },
            }
        }
        match best {
            None => 0,
            Some(b) => {
                proof {
                    let j0 = choose|j: int| 0 <= j < g_idx && *g_seq[j] == b;
                    assert(g_seq.unref()[j0] == b);
                    assert(g_seq.unref().to_set().contains(b));
                    assert(self@.contains_key(b));
                    assert forall|k: Id| #[trigger] self@.contains_key(k) implies k <= b by {
                        assert(g_seq.unref().to_set().contains(k));
                        let j = choose|j: int| 0 <= j < g_seq.unref().len() && g_seq.unref()[j] == k;
                        assert(*g_seq[j] == g_seq.unref()[j]);
                    }
                }
                b + 1
            },
        }
    }
}

} // verus!
