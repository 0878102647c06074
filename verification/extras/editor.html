<!DOCTYPE html>
<html>
<head>
<meta charset="utf-8">
<style>
  html, body { margin: 0; height: 100%; }
  body {
    box-sizing: border-box;
    padding: 12px;
    font-family: __FAMILY__;
    font-size: __SIZE__pt;
    line-height: 1.5;
    color: #241f31;
    background: transparent;
    outline: none;
  }
  p { margin: 0; }
  img { max-width: 100%; height: auto; }
  a { color: __ACCENT__; }
  blockquote {
    margin: 0 0 0 2px;
    padding-left: 10px;
    border-left: 2px solid #c0bfbc;
    color: #5e5c64;
  }
  .signature { color: #5e5c64; }
  @media (prefers-color-scheme: dark) {
    body { color: #f6f5f4; }
    blockquote { border-left-color: #5e5c64; color: #c0bfbc; }
    .signature { color: #c0bfbc; }
  }
</style>
<script>
  // Lives in <head>: a script placed after </body> is hoisted into the
  // body by the parser and would leak into document.body.innerHTML,
  // i.e. into the saved signature or the sent message.
  document.addEventListener('DOMContentLoaded', function () {
    var COMMANDS = __COMMANDS__;

    function currentRange() {
      var selection = window.getSelection();
      return selection.rangeCount ? selection.getRangeAt(0) : null;
    }

    function linkAt(node) {
      while (node && node !== document.body) {
        if (node.nodeType === 1 && node.tagName === 'A') return node;
        node = node.parentNode;
      }
      return null;
    }

    function anchors() {
      return document.querySelectorAll('a');
    }

    function describeLink(a) {
      return {
        index: Array.prototype.indexOf.call(anchors(), a),
        href: a.getAttribute('href') || '',
        text: a.textContent
      };
    }

    function post() {
      var states = {};
      COMMANDS.forEach(function (name) {
        states[name] = document.queryCommandState(name);
      });
      var range = currentRange();
      var link = range ? linkAt(range.commonAncestorContainer) : null;
      window.webkit.messageHandlers.editor.postMessage(JSON.stringify({
        html: document.body.innerHTML,
        states: states,
        colors: {
          text: document.queryCommandValue('foreColor'),
          // Some engines only answer the older name for the same value.
          highlight: document.queryCommandValue('hiliteColor')
            || document.queryCommandValue('backColor')
        },
        selection: range ? range.toString() : '',
        link: link ? describeLink(link) : null
      }));
    }
    window.rustlePost = post;

    document.addEventListener('input', post);
    document.addEventListener('selectionchange', post);

    // --- colours ---------------------------------------------------------
    // Clearing a colour means applying the one the surroundings already
    // have: WebKit then strips the explicit colour from the selection and,
    // as the value matches the computed style, wraps nothing new. The text
    // keeps following the reader's theme instead of being pinned to
    // whatever the editor's default happened to be.
    function inheritedValue(property, setsIt) {
      var range = currentRange();
      var node = range ? range.commonAncestorContainer : document.body;
      if (node.nodeType !== 1) node = node.parentNode;
      while (node && node !== document.body && setsIt(node)) node = node.parentNode;
      return getComputedStyle(node || document.body)[property];
    }

    window.rustleSetColor = function (kind, value) {
      var command = kind === 'highlight' ? 'hiliteColor' : 'foreColor';
      if (value === null) {
        value = kind === 'highlight'
          ? inheritedValue('backgroundColor', function (el) {
              return el.style.backgroundColor !== '';
            })
          : inheritedValue('color', function (el) {
              return el.style.color !== '' || (el.tagName === 'FONT' && el.hasAttribute('color'));
            });
      }
      document.execCommand(command, false, value);
      post();
    };

    // --- links -----------------------------------------------------------
    function escapeHtml(text) {
      return String(text).replace(/[&<>"']/g, function (c) {
        return { '&': '&amp;', '<': '&lt;', '>': '&gt;', '"': '&quot;', "'": '&#39;' }[c];
      });
    }

    function caretAfter(node) {
      var range = document.createRange();
      range.setStartAfter(node);
      range.collapse(true);
      var selection = window.getSelection();
      selection.removeAllRanges();
      selection.addRange(range);
    }

    // A link at the selection: over the selected text when that is the
    // text asked for, otherwise typed in fresh. Inside an existing link the
    // link is edited instead of nested.
    window.rustleInsertLink = function (href, text) {
      var range = currentRange();
      var existing = range ? linkAt(range.commonAncestorContainer) : null;
      if (existing) {
        window.rustleUpdateLink(describeLink(existing).index, href, text);
        return;
      }
      if (range && !range.collapsed && range.toString() === text) {
        document.execCommand('createLink', false, href);
      } else {
        document.execCommand('insertHTML', false,
          '<a href="' + escapeHtml(href) + '">' + escapeHtml(text || href) + '</a>');
      }
      post();
    };

    window.rustleUpdateLink = function (index, href, text) {
      var a = anchors()[index];
      if (!a) return;
      a.setAttribute('href', href);
      // Left alone when unchanged so formatting inside the link survives.
      if (a.textContent !== text) a.textContent = text;
      caretAfter(a);
      post();
    };

    window.rustleRemoveLink = function (index) {
      var a = anchors()[index];
      if (!a) return;
      var range = document.createRange();
      range.selectNodeContents(a);
      var selection = window.getSelection();
      selection.removeAllRanges();
      selection.addRange(range);
      document.execCommand('unlink');
      post();
    };

    function reportLink(a) {
      var handler = window.webkit.messageHandlers.link;
      if (!handler) return;
      var info = describeLink(a);
      var rect = a.getBoundingClientRect();
      info.rect = { x: rect.left, y: rect.top, width: rect.width, height: rect.height };
      handler.postMessage(JSON.stringify(info));
    }

    // Pasted or dropped image files go in as data: URIs; the MIME builder
    // turns them into inline parts when the message is sent. A paste that
    // carries both an image and text/html (a browser copy of a picture)
    // takes the file: the HTML would reference a remote image the reader
    // blocks and the recipient may never load.
    function imageFiles(transfer) {
      var files = [];
      if (!transfer) return files;
      var items = transfer.items || [];
      for (var i = 0; i < items.length; i++) {
        if (items[i].kind === 'file' && /^image\//.test(items[i].type)) {
          var file = items[i].getAsFile();
          if (file) files.push(file);
        }
      }
      if (!files.length && transfer.files) {
        for (var j = 0; j < transfer.files.length; j++) {
          if (/^image\//.test(transfer.files[j].type)) files.push(transfer.files[j]);
        }
      }
      return files;
    }

    function insertImages(files) {
      files.forEach(function (file) {
        var reader = new FileReader();
        reader.onload = function () {
          document.execCommand('insertImage', false, reader.result);
          post();
        };
        reader.readAsDataURL(file);
      });
    }

    document.addEventListener('paste', function (event) {
      var files = imageFiles(event.clipboardData);
      if (!files.length) return;
      event.preventDefault();
      insertImages(files);
    });

    // WebKitGTK does not surface a clipboard picture through clipboardData;
    // it pastes it itself as a blob: image, which never loads here (only
    // data: escapes the images-off setting) and means nothing once sent.
    // Fold such images into data: URIs as soon as they appear.
    function inlineBlobImages() {
      var images = document.querySelectorAll('img[src^="blob:"]');
      Array.prototype.forEach.call(images, function (img) {
        var src = img.src;
        img.removeAttribute('src');
        fetch(src).then(function (response) {
          return response.blob();
        }).then(function (blob) {
          if (!/^image\//.test(blob.type)) throw new Error('not an image');
          var reader = new FileReader();
          reader.onload = function () {
            img.src = reader.result;
            post();
          };
          reader.readAsDataURL(blob);
        }).catch(function () {
          img.remove();
          post();
        });
      });
    }
    document.addEventListener('input', inlineBlobImages);

    // --- image sizing ----------------------------------------------------
    // Clicking a picture reports it, with what each preset width would cost,
    // to the "image" handler; the app answers with rustleResizeImage or
    // rustleRemoveImage. The full-size bytes are kept aside so a shrunken
    // picture can be restored.
    var PRESETS = [['small', 480], ['medium', 800], ['large', 1200]];
    var originals = new WeakMap();

    function bytesOf(dataUrl) {
      var comma = dataUrl.indexOf(',');
      if (dataUrl.indexOf(';base64,') < 0) return dataUrl.length - comma - 1;
      var body = dataUrl.length - comma - 1;
      var padding = dataUrl.endsWith('==') ? 2 : dataUrl.endsWith('=') ? 1 : 0;
      return Math.max(0, Math.floor(body * 3 / 4) - padding);
    }

    function originalOf(img) {
      if (!originals.has(img)) originals.set(img, img.src);
      return originals.get(img);
    }

    // Encode `source` scaled to `width`: PNG when anything is transparent,
    // otherwise whichever of PNG and JPEG comes out smaller.
    function encode(source, width) {
      var scale = width / source.naturalWidth;
      var canvas = document.createElement('canvas');
      canvas.width = width;
      canvas.height = Math.max(1, Math.round(source.naturalHeight * scale));
      var context = canvas.getContext('2d');
      context.drawImage(source, 0, 0, canvas.width, canvas.height);
      var pixels = context.getImageData(0, 0, canvas.width, canvas.height).data;
      for (var i = 3; i < pixels.length; i += 4) {
        if (pixels[i] < 255) return canvas.toDataURL('image/png');
      }
      var png = canvas.toDataURL('image/png');
      var jpeg = canvas.toDataURL('image/jpeg', 0.85);
      return jpeg.length < png.length ? jpeg : png;
    }

    function loadOriginal(img, then) {
      var source = new Image();
      source.onload = function () { then(source); };
      source.src = originalOf(img);
    }

    function reportImage(img) {
      var handler = window.webkit.messageHandlers.image;
      if (!handler || !/^data:image\//.test(img.src)) return;
      var index = Array.prototype.indexOf.call(document.images, img);
      loadOriginal(img, function (source) {
        var originalBytes = bytesOf(source.src);
        var options = [];
        PRESETS.forEach(function (preset) {
          if (preset[1] >= source.naturalWidth) return;
          var bytes = bytesOf(encode(source, preset[1]));
          // A re-encoded PNG can come out heavier than a well-compressed
          // original; a preset that saves nothing is not offered.
          if (bytes < originalBytes) options.push({ name: preset[0], width: preset[1], bytes: bytes });
        });
        options.push({ name: 'original', width: source.naturalWidth, bytes: originalBytes });
        var current = null;
        options.forEach(function (option) {
          if (option.width === img.naturalWidth) current = option.name;
        });
        var rect = img.getBoundingClientRect();
        handler.postMessage(JSON.stringify({
          index: index,
          rect: { x: rect.left, y: rect.top, width: rect.width, height: rect.height },
          bytes: bytesOf(img.src),
          current: current,
          options: options
        }));
      });
    }

    document.addEventListener('click', function (event) {
      var target = event.target;
      if (!target) return;
      if (target.tagName === 'IMG') {
        reportImage(target);
        return;
      }
      var a = linkAt(target);
      if (a) reportLink(a);
    });

    window.rustleResizeImage = function (index, name) {
      var img = document.images[index];
      if (!img) return;
      loadOriginal(img, function (source) {
        var preset = PRESETS.filter(function (p) { return p[0] === name; })[0];
        img.removeAttribute('width');
        img.removeAttribute('height');
        img.src = preset && preset[1] < source.naturalWidth ? encode(source, preset[1]) : source.src;
        post();
      });
    };

    window.rustleRemoveImage = function (index) {
      var img = document.images[index];
      if (!img) return;
      img.remove();
      post();
    };

    document.addEventListener('dragover', function (event) {
      if (imageFiles(event.dataTransfer).length) event.preventDefault();
    });

    document.addEventListener('drop', function (event) {
      var files = imageFiles(event.dataTransfer);
      if (!files.length) return;
      event.preventDefault();
      if (document.caretRangeFromPoint) {
        var range = document.caretRangeFromPoint(event.clientX, event.clientY);
        if (range) {
          var selection = window.getSelection();
          selection.removeAllRanges();
          selection.addRange(range);
        }
      }
      insertImages(files);
    });

    // <div> separators inherit no margin, so a sent message keeps the spacing
    // it was typed with even in clients that apply their own stylesheet.
    document.execCommand('defaultParagraphSeparator', false, 'div');
    document.body.focus();

    var first = document.body.firstChild;
    if (first) {
      var range = document.createRange();
      range.setStart(first, 0);
      range.collapse(true);
      var selection = window.getSelection();
      selection.removeAllRanges();
      selection.addRange(range);
    }
  });
</script>
</head>
<body contenteditable="true">__BODY__</body>
</html>
