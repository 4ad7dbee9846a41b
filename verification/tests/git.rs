use domino::git::parse_diff;

#[test]
fn test_parse_diff() {
    let diff = r#"diff --git a/libs/core/src/utils.ts b/libs/core/src/utils.ts
index 1234567..abcdefg 100644
--- a/libs/core/src/utils.ts
+++ b/libs/core/src/utils.ts
@@ -15,0 +16,1 @@ export function findRootNode() {
+  return node.getParent();
@@ -45,1 +46,1 @@ export function getPackageName() {
-  return projects.find(p => p.path === path);
+  return projects.find(({ sourceRoot }) => path.includes(sourceRoot));
diff --git a/libs/nx/src/cli.ts b/libs/nx/src/cli.ts
index 9876543..fedcba9 100644
--- a/libs/nx/src/cli.ts
+++ b/libs/nx/src/cli.ts
@@ -102,0 +103,2 @@ export async function run(): Promise<void> {
+  // New code
+  console.log('test');
"#;

    let result = parse_diff(diff).unwrap();
    assert_eq!(result.len(), 2);

    assert_eq!(
        result[0].file_path,
        "libs/core/src/utils.ts"
    );
    assert_eq!(result[0].changed_lines, vec![16, 46]);

    assert_eq!(result[1].file_path, "libs/nx/src/cli.ts");
    assert_eq!(result[1].changed_lines, vec![103, 104]);
}

#[test]
fn test_parse_diff_empty() {
    let diff = "";
    let result = parse_diff(diff).unwrap();
    assert_eq!(result.len(), 0);
}

#[test]
fn test_parse_diff_renamed_file() {
    let diff = r#"diff --git a/libs/old-dir/provider.ts b/libs/new-dir/provider.ts
similarity index 95%
rename from libs/old-dir/provider.ts
rename to libs/new-dir/provider.ts
index 1234567..abcdefg 100644
--- a/libs/old-dir/provider.ts
+++ b/libs/new-dir/provider.ts
@@ -10,1 +10,1 @@ export class Provider {
-  return 'old';
+  return 'new';
"#;

    let result = parse_diff(diff).unwrap();
    assert_eq!(result.len(), 1);

    assert_eq!(
        result[0].file_path,
        "libs/new-dir/provider.ts"
    );
    assert_eq!(result[0].changed_lines, vec![10]);
}

#[test]
fn test_parse_diff_renamed_file_with_changes() {
    let diff = r#"diff --git a/src/quotes/helper.ts b/src/quote-page/helper.ts
similarity index 80%
rename from src/quotes/helper.ts
rename to src/quote-page/helper.ts
index 1234567..abcdefg 100644
--- a/src/quotes/helper.ts
+++ b/src/quote-page/helper.ts
@@ -5,1 +5,1 @@ export function getQuote() {
-  return fetchQuote();
+  return fetchPlatformicQuote();
@@ -20,0 +20,3 @@ export function formatQuote() {
+  // New validation logic
+  validateQuote();
+  return formatted;
"#;

    let result = parse_diff(diff).unwrap();
    assert_eq!(result.len(), 1);

    assert_eq!(
        result[0].file_path,
        "src/quote-page/helper.ts"
    );
    assert_eq!(result[0].changed_lines, vec![5, 20, 21, 22]);
}

#[test]
fn test_parse_diff_mixed_renamed_and_normal() {
    let diff = r#"diff --git a/src/old/component.ts b/src/new/component.ts
similarity index 90%
rename from src/old/component.ts
rename to src/new/component.ts
index 1234567..abcdefg 100644
--- a/src/old/component.ts
+++ b/src/new/component.ts
@@ -3,1 +3,1 @@
-  old code
+  new code
diff --git a/src/index.ts b/src/index.ts
index 9876543..fedcba9 100644
--- a/src/index.ts
+++ b/src/index.ts
@@ -1,1 +1,1 @@
-export { Component } from './old/component';
+export { Component } from './new/component';
"#;

    let result = parse_diff(diff).unwrap();
    assert_eq!(result.len(), 2);

    assert_eq!(
        result[0].file_path,
        "src/new/component.ts"
    );

    assert_eq!(result[1].file_path, "src/index.ts");
}

#[test]
fn test_parse_diff_rename_only() {
    let diff = r#"diff --git a/src/old/name.ts b/src/new/name.ts
similarity index 100%
rename from src/old/name.ts
rename to src/new/name.ts
"#;

    let result = parse_diff(diff).unwrap();
    assert_eq!(result.len(), 1);
    assert_eq!(result[0].file_path, "src/new/name.ts");
    assert_eq!(result[0].changed_lines, vec![1]);
}

#[test]
fn test_parse_diff_binary_file() {
    let diff = r#"diff --git a/apps/e2e/src/__screenshots__/tests/visual.spec.ts/screenshot.png b/apps/e2e/src/__screenshots__/tests/visual.spec.ts/screenshot.png
index 1234567..abcdefg 100644
Binary files a/apps/e2e/src/__screenshots__/tests/visual.spec.ts/screenshot.png and b/apps/e2e/src/__screenshots__/tests/visual.spec.ts/screenshot.png differ
"#;

    let result = parse_diff(diff).unwrap();
    assert_eq!(result.len(), 1);
    assert_eq!(
        result[0].file_path,
        "apps/e2e/src/__screenshots__/tests/visual.spec.ts/screenshot.png"
    );
    assert!(result[0].changed_lines.is_empty());
}

#[test]
fn test_parse_diff_new_binary_file() {
    let diff = r#"diff --git "a/image.png" "b/image.png"
new file mode 100644
index 000000000..26b848d67
Binary files /dev/null and "b/image.png" differ
"#;

    let result = parse_diff(diff).unwrap();
    assert_eq!(result.len(), 1);
    assert_eq!(result[0].file_path, "image.png");
    assert!(result[0].changed_lines.is_empty());
}

#[test]
fn test_parse_diff_binary_mixed_with_source() {
    let diff = r#"diff --git a/apps/e2e/screenshot.png b/apps/e2e/screenshot.png
index 1234567..abcdefg 100644
Binary files a/apps/e2e/screenshot.png and b/apps/e2e/screenshot.png differ
diff --git a/libs/core/src/utils.ts b/libs/core/src/utils.ts
index 1234567..abcdefg 100644
--- a/libs/core/src/utils.ts
+++ b/libs/core/src/utils.ts
@@ -15,0 +16,1 @@ export function findRootNode() {
+  return node.getParent();
"#;

    let result = parse_diff(diff).unwrap();
    assert_eq!(result.len(), 2);

    assert_eq!(
        result[0].file_path,
        "apps/e2e/screenshot.png"
    );
    assert!(result[0].changed_lines.is_empty());

    assert_eq!(
        result[1].file_path,
        "libs/core/src/utils.ts"
    );
    assert_eq!(result[1].changed_lines, vec![16]);
}

#[test]
fn test_parse_diff_copy_only() {
    let diff = r#"diff --git a/src/original.ts b/src/copied.ts
similarity index 100%
copy from src/original.ts
copy to src/copied.ts
"#;

    let result = parse_diff(diff).unwrap();
    assert_eq!(result.len(), 1);
    assert_eq!(result[0].file_path, "src/copied.ts");
    assert_eq!(result[0].changed_lines, vec![1]);
}

#[test]
fn test_parse_diff_multi_line_hunk_covers_full_range() {
    let diff = r#"diff --git a/packages/package-a/src/foo.ts b/packages/package-a/src/foo.ts
index 1234567..abcdefg 100644
--- a/packages/package-a/src/foo.ts
+++ b/packages/package-a/src/foo.ts
@@ -3 +3,7 @@ import { helper } from './helper.js';
-export const foo = (x: number): number => helper(x) + 1;
+interface FooOptions {
+  offset: number;
+  multiplier: number;
+}
+
+export const foo = (x: number, options: FooOptions = { offset: 1, multiplier: 3 }): number =>
+  helper(x) * options.multiplier + options.offset;
"#;

    let result = parse_diff(diff).unwrap();
    assert_eq!(result.len(), 1);
    assert_eq!(result[0].changed_lines, vec![3, 4, 5, 6, 7, 8, 9]);
}

#[test]
fn test_parse_diff_shorthand_count_defaults_to_one() {
    let diff = r#"diff --git a/src/foo.ts b/src/foo.ts
index 1234567..abcdefg 100644
--- a/src/foo.ts
+++ b/src/foo.ts
@@ -1 +1 @@
-export const foo = 1;
+export const foo = 2;
"#;

    let result = parse_diff(diff).unwrap();
    assert_eq!(result.len(), 1);
    assert_eq!(result[0].changed_lines, vec![1]);
}

#[test]
fn test_parse_diff_deletion_hunk_records_old_side_alongside_addition() {
    let diff = r#"diff --git a/src/foo.ts b/src/foo.ts
index 1234567..abcdefg 100644
--- a/src/foo.ts
+++ b/src/foo.ts
@@ -5,3 +5,0 @@ prefix
-  deleted one
-  deleted two
-  deleted three
@@ -20,0 +21,2 @@ suffix
+  added one
+  added two
"#;

    let result = parse_diff(diff).unwrap();
    assert_eq!(result.len(), 1);
    assert_eq!(result[0].changed_lines, vec![21, 22]);
    assert_eq!(result[0].deleted_lines, vec![5, 6, 7]);
}

#[test]
fn test_parse_diff_deletion_only_file_records_deleted_lines() {
    let diff = r#"diff --git a/src/foo.ts b/src/foo.ts
index 1234567..abcdefg 100644
--- a/src/foo.ts
+++ b/src/foo.ts
@@ -5,3 +5,0 @@ export function foo() {
-  deleted one
-  deleted two
-  deleted three
"#;

    let result = parse_diff(diff).unwrap();
    assert_eq!(result.len(), 1);
    assert_eq!(result[0].file_path, "src/foo.ts");
    assert!(result[0].changed_lines.is_empty());
    assert_eq!(result[0].deleted_lines, vec![5, 6, 7]);
}

#[test]
fn test_parse_diff_symmetric_hunk_with_old_and_new_counts() {
    let diff = r#"diff --git a/src/foo.ts b/src/foo.ts
index 1234567..abcdefg 100644
--- a/src/foo.ts
+++ b/src/foo.ts
@@ -3,3 +3,3 @@ import { helper } from './helper.js';
-old line 3
-old line 4
-old line 5
+new line 3
+new line 4
+new line 5
"#;

    let result = parse_diff(diff).unwrap();
    assert_eq!(result.len(), 1);
    assert_eq!(result[0].changed_lines, vec![3, 4, 5]);
}

#[test]
fn test_parse_diff_deletion_only_hunk_records_old_side_line() {
    let diff = r#"diff --git a/src/attrs.ts b/src/attrs.ts
index 1234567..abcdefg 100644
--- a/src/attrs.ts
+++ b/src/attrs.ts
@@ -495 +494,0 @@ export const declarativeCalculations = {
-  'Commissions & Fees': { alternative: ['Bank Charges'] },
"#;

    let result = parse_diff(diff).unwrap();
    assert_eq!(result.len(), 1);
    assert!(result[0].changed_lines.is_empty());
    assert_eq!(result[0].deleted_lines, vec![495]);
}

#[test]
fn test_parse_diff_deletion_of_leading_symbol_records_full_old_range() {
    let diff = r#"diff --git a/src/foo.ts b/src/foo.ts
index 1234567..abcdefg 100644
--- a/src/foo.ts
+++ b/src/foo.ts
@@ -1,3 +0,0 @@
-export const Removed = {
-  value: 1,
-};
"#;

    let result = parse_diff(diff).unwrap();
    assert_eq!(result.len(), 1);
    assert!(result[0].changed_lines.is_empty());
    assert_eq!(result[0].deleted_lines, vec![1, 2, 3]);
}
