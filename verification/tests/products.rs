use netlabs::products::{CreateProductRequest, ImageError, Images, PartialProduct, ProductError, Products};
use netlabs::shop::{Shop, ShopError};

fn partial(id: Option<i64>, name: Option<&str>, icon: Option<u128>) -> PartialProduct {
    PartialProduct { id, name: name.map(|n| n.to_string()), description: None, icon }
}

#[test]
fn catalogue_ids_and_updates() {
    let mut p = Products::new();
    assert!(p.has_room());
    let a = p.create("a".to_string(), "first".to_string(), None);
    let b = p.create("b".to_string(), "second".to_string(), None);
    assert_eq!((a.id, b.id), (0, 1));
    assert_eq!(p.find(1).unwrap().name, "b");
    let changed = p.update(0, partial(None, Some("A"), None)).unwrap();
    assert_eq!(changed.name, "A");
    assert_eq!(changed.description, "first");
    let moved = p.update(0, partial(Some(7), None, None)).unwrap();
    assert_eq!(moved.id, 7);
    assert_eq!(p.find(0).err(), Some(ProductError::NoProduct(0)));
    assert_eq!(p.create("c".to_string(), String::new(), None).id, 8);
    assert_eq!(p.delete(1).unwrap().name, "b");
    assert_eq!(p.delete(1).err(), Some(ProductError::NoProduct(1)));
    assert_eq!(p.all().len(), 2);
}

#[test]
fn icons_of_products() {
    let mut p = Products::new();
    p.create("a".to_string(), String::new(), None);
    assert_eq!(p.icon(0).err(), Some(ProductError::NoIcon(0)));
    assert_eq!(p.set_icon(0, 42).unwrap().icon, Some(42));
    assert_eq!(p.icon(0), Ok(42));
    assert_eq!(p.set_icon(3, 42).err(), Some(ProductError::NoProduct(3)));
}

#[test]
fn images_store() {
    let mut images = Images::new();
    let id = images.create(vec![1, 2, 3]);
    assert_eq!(images.find(id).unwrap().bytes(), vec![1, 2, 3]);
    assert!(images.contains(id).is_ok());
    assert_eq!(images.contains(id ^ 1), Err(ImageError::NoImage(id ^ 1)));
    let other = images.create(vec![4]);
    assert_ne!(id, other);
}

#[test]
fn shop_requests() {
    let mut shop = Shop::new();
    let request = CreateProductRequest { name: "a".to_string(), description: "d".to_string(), icon: Some(5) };
    assert_eq!(shop.try_create_product(request).err(), Some(ShopError::Image(ImageError::NoImage(5))));
    let request = CreateProductRequest { name: "a".to_string(), description: "d".to_string(), icon: None };
    let a = shop.try_create_product(request).unwrap();
    assert_eq!(a.id, 0);
    assert_eq!(shop.try_product_by_id(0).unwrap().name, "a");
    assert_eq!(shop.try_product_by_id(9).err(), Some(ShopError::Product(ProductError::NoProduct(9))));
    assert_eq!(shop.try_upload_icon(0, None).err(), Some(ShopError::WrongLayout));
    let with_icon = shop.try_upload_icon(0, Some(vec![9, 9])).unwrap();
    let icon = with_icon.icon.unwrap();
    assert_eq!(shop.try_download_icon(0).unwrap(), vec![9, 9]);
    assert_eq!(shop.try_update_product(0, partial(None, None, Some(icon ^ 1))).err(), Some(ShopError::Image(ImageError::NoImage(icon ^ 1))));
    assert_eq!(shop.try_update_product(0, partial(None, Some("b"), Some(icon))).unwrap().name, "b");
    assert_eq!(shop.try_products().len(), 1);
    assert_eq!(shop.try_delete_product(0).unwrap().name, "b");
    assert_eq!(shop.try_download_icon(0).err(), Some(ShopError::Product(ProductError::NoProduct(0))));
    assert!(shop.missing_image(None).is_ok());
}

#[test]
fn image_ids_are_version_4_uuids() {
    let mut images = Images::new();
    for _ in 0..20 {
        let id = images.create(vec![]);
        assert_eq!((id >> 76) & 0xF, 4);
        assert_eq!((id >> 62) & 0x3, 2);
    }
}

#[test]
fn refusal_texts() {
    assert_eq!(ProductError::NoProduct(7).text(), "No product with id 7");
    assert_eq!(ProductError::NoProduct(-12).text(), "No product with id -12");
    assert_eq!(ProductError::NoIcon(3).text(), "Product 3 has no icon");
    assert_eq!(
        ImageError::NoImage(0x67e5_5044_10b1_426f_9247_bb68_0e5f_e0c8).text(),
        "No image with id 67e55044-10b1-426f-9247-bb680e5fe0c8"
    );
    assert_eq!(ShopError::WrongLayout.text(), "Wrong form-data layout");
    assert_eq!(ShopError::Product(ProductError::NoIcon(0)).text(), "Product 0 has no icon");
    let mut p = Products::new();
    match p.update(42, partial(None, Some("x"), None)) {
        Err(e) => assert_eq!(e.text(), "No product with id 42"),
        Ok(_) => panic!("expected a refusal"),
    }
}
