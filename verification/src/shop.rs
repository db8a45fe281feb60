//! The requests of the product catalogue service, each answered from the
//! catalogue and the image store together.

use vstd::prelude::*;
use crate::products::{
    next_id, updated, CreateProductRequest, Id, Image, ImageError, ImageId, Images, PartialProduct,
    Product, ProductError, Products,
};

verus! {

/// Why a request was refused.
#[derive(PartialEq, Eq, Structural, Clone, Copy, Debug)]
pub enum ShopError {
    Image(ImageError),
    Product(ProductError),
    /// An upload without the `icon` field.
    WrongLayout,
}

impl ShopError {
    /// The message that tells a client why.
    pub open spec fn message(self) -> Seq<char> {
        match self {
            ShopError::Image(e) => e.message(),
            ShopError::Product(e) => e.message(),
            ShopError::WrongLayout => "Wrong form-data layout"@,
        }
    }

    /// The message that tells a client why.
    pub fn text(&self) -> (s: String)
        ensures
            s@ == self.message(),
    {
        match self {
            ShopError::Image(e) => e.text(),
            ShopError::Product(e) => e.text(),
            ShopError::WrongLayout => String::from_str("Wrong form-data layout"),
        }
    }
}

pub struct Shop {
    pub products: Products,
    pub images: Images,
}

impl Shop {
    pub open spec fn wf(&self) -> bool {
        self.products.wf()
    }

    pub fn new() -> (s: Self)
        ensures
            s.wf(),
            s.products@ == Map::<Id, Product>::empty(),
            s.images@ == Map::<ImageId, Image>::empty(),
    {
        Shop { products: Products::new(), images: Images::new() }
    }

    /// Refuses an icon that names no stored image.
    pub fn missing_image(&self, icon: Option<ImageId>) -> (r: Result<(), ShopError>)
        ensures
            r is Ok <==> (icon matches Some(i) ==> self.images@.contains_key(i)),
            r matches Err(e) ==> icon matches Some(i) && e == ShopError::Image(ImageError::NoImage(i)),
    {
        match icon {
            Some(id) => match self.images.contains(id) {
                Ok(()) => Ok(()),
                Err(e) => Err(ShopError::Image(e)),
            },
            None => Ok(()),
        }
    }

    /// Adds a product, once its icon, if any, is known to exist.
    pub fn try_create_product(&mut self, request: CreateProductRequest) -> (r: Result<Product, ShopError>)
        requires
            old(self).wf(),
            forall|k: Id| #[trigger] old(self).products@.contains_key(k) ==> k < i64::MAX,
        ensures
            final(self).wf(),
            final(self).images@ == old(self).images@,
            (request.icon matches Some(i) && !old(self).images@.contains_key(i)) ==> r == Err::<Product, ShopError>(
                ShopError::Image(ImageError::NoImage(request.icon->Some_0)),
            ) && final(self).products@ == old(self).products@,
            !(request.icon matches Some(i) && !old(self).images@.contains_key(i)) ==> ({
                let p = Product {
                    id: next_id(old(self).products@.dom()) as i64,
                    name: request.name,
                    description: request.description,
                    icon: request.icon,
                };
                r == Ok::<Product, ShopError>(p) && final(self).products@ == old(self).products@.insert(p.id, p)
            }),
    {
        match self.missing_image(request.icon) {
            Err(e) => Err(e),
            Ok(()) => Ok(self.products.create(request.name, request.description, request.icon)),
        }
    }

    pub fn try_product_by_id(&self, id: Id) -> (r: Result<Product, ShopError>)
        ensures
            self.products@.contains_key(id) ==> r == Ok::<Product, ShopError>(self.products@[id]),
            !self.products@.contains_key(id) ==> r == Err::<Product, ShopError>(
                ShopError::Product(ProductError::NoProduct(id)),
            ),
    {
        match self.products.find(id) {
            Ok(p) => Ok(p),
            Err(e) => Err(ShopError::Product(e)),
        }
    }

    /// Changes a product, once the icon it is given, if any, is known to
    /// exist.
    pub fn try_update_product(&mut self, id: Id, request: PartialProduct) -> (r: Result<Product, ShopError>)
        requires
            old(self).wf(),
        ensures
            final(self).wf(),
            final(self).images@ == old(self).images@,
            (request.icon matches Some(i) && !old(self).images@.contains_key(i)) ==> r == Err::<Product, ShopError>(
                ShopError::Image(ImageError::NoImage(request.icon->Some_0)),
            ) && final(self).products@ == old(self).products@,
            !(request.icon matches Some(i) && !old(self).images@.contains_key(i)) && !old(self).products@.contains_key(id)
                ==> r == Err::<Product, ShopError>(ShopError::Product(ProductError::NoProduct(id)))
                && final(self).products@ == old(self).products@,
            !(request.icon matches Some(i) && !old(self).images@.contains_key(i)) && old(self).products@.contains_key(id)
                ==> ({
                let p = updated(old(self).products@[id], request);
                let base = if request.id matches Some(u) && u != id {
                    old(self).products@.remove(id)
                } else {
                    old(self).products@
                };
                r == Ok::<Product, ShopError>(p) && final(self).products@ == base.insert(p.id, p)
            }),
    {
        match self.missing_image(request.icon()) {
            Err(e) => Err(e),
            Ok(()) => match self.products.update(id, request) {
                Ok(p) => Ok(p),
                Err(e) => Err(ShopError::Product(e)),
            },
        }
    }

    pub fn try_delete_product(&mut self, id: Id) -> (r: Result<Product, ShopError>)
        requires
            old(self).wf(),
        ensures
            final(self).wf(),
            final(self).images@ == old(self).images@,
            old(self).products@.contains_key(id) ==> r == Ok::<Product, ShopError>(old(self).products@[id])
                && final(self).products@ == old(self).products@.remove(id),
            !old(self).products@.contains_key(id) ==> r == Err::<Product, ShopError>(
                ShopError::Product(ProductError::NoProduct(id)),
            ) && final(self).products@ == old(self).products@,
    {
        match self.products.delete(id) {
            Ok(p) => Ok(p),
            Err(e) => Err(ShopError::Product(e)),
        }
    }

    pub fn try_products(&self) -> (r: Vec<Product>)
        ensures
            r@.len() == self.products@.dom().len(),
            r@.to_set() == self.products@.values(),
    {
        self.products.all()
    }

    /// Stores an uploaded icon and gives it to product `id`. The image is
    /// stored even when there is no such product.
    pub fn try_upload_icon(&mut self, id: Id, uploaded: Option<Vec<u8>>) -> (r: Result<Product, ShopError>)
        requires
            old(self).wf(),
        ensures
            final(self).wf(),
            uploaded is None ==> r == Err::<Product, ShopError>(ShopError::WrongLayout) && final(self).products@
                == old(self).products@ && final(self).images@ == old(self).images@,
            uploaded matches Some(raw) ==> exists|icon: ImageId| {
                &&& final(self).images@.dom() == old(self).images@.dom().insert(icon)
                &&& final(self).images@[icon].raw@ == raw@
                &&& (old(self).products@.contains_key(id) ==> ({
                    let p = Product { icon: Some(icon), ..old(self).products@[id] };
                    r == Ok::<Product, ShopError>(p) && final(self).products@ == old(self).products@.insert(id, p)
                }))
                &&& (!old(self).products@.contains_key(id) ==> r == Err::<Product, ShopError>(
                    ShopError::Product(ProductError::NoProduct(id)),
                ) && final(self).products@ == old(self).products@)
            },
    {
        match uploaded {
            None => Err(ShopError::WrongLayout),
            Some(raw) => {
                let icon = self.images.create(raw);
                match self.products.set_icon(id, icon) {
                    Ok(p) => Ok(p),
                    Err(e) => Err(ShopError::Product(e)),
                }
            },
        }
    }

    /// The bytes of product `id`'s icon.
    pub fn try_download_icon(&mut self, id: Id) -> (r: Result<Vec<u8>, ShopError>)
        ensures
            final(self).products@ == old(self).products@,
            final(self).images@ == old(self).images@,
            !old(self).products@.contains_key(id) ==> r == Err::<Vec<u8>, ShopError>(
                ShopError::Product(ProductError::NoProduct(id)),
            ),
            old(self).products@.contains_key(id) ==> match old(self).products@[id].icon {
                None => r == Err::<Vec<u8>, ShopError>(ShopError::Product(ProductError::NoIcon(id))),
                Some(i) => if old(self).images@.contains_key(i) {
                    r matches Ok(b) && b@ == old(self).images@[i].raw@
                } else {
                    r == Err::<Vec<u8>, ShopError>(ShopError::Image(ImageError::NoImage(i)))
                },
            },
    {
        let icon = match self.products.icon(id) {
            Ok(i) => i,
            Err(e) => {
                return Err(ShopError::Product(e));
            },
        };
        match self.images.find(icon) {
            Ok(image) => Ok(image.bytes()),
            Err(e) => Err(ShopError::Image(e)),
        }
    }
}

} // verus!
